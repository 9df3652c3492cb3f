use vstd::prelude::*;
use vstd::string::StringExecFns;
use crate::attribute::Attribute;
use crate::error::{Error, ParseError};
use crate::machine::{Event, Machine};
use crate::parser::{IsParser, Parser};
use crate::tag::Tag;
use crate::text::{debug_string, decimal_string, string_from_utf8};
use crate::traits::ToHTML;
use crate::tree::{
    attributes_html, indent, opening_html, outline_line, payload_renderable, rejected, rising,
    visited, ElementView, NodeId, NodeView, Payload, Tree, ROOT_NODE_ID,
};
use crate::tree_proofs::{
    lemma_concat_contains, lemma_rejected_all, lemma_rejected_none, lemma_remove_value_rising,
};

verus! {

/// The payload of an element node.
pub struct NodeElement {
    tag: Tag,
    attributes: Vec<Attribute>,
}

impl View for NodeElement {
    type V = ElementView;

    closed spec fn view(&self) -> ElementView {
        ElementView { tag: self.tag, attributes: self.attributes.deep_view() }
    }
}

impl NodeElement {
    /// The tag of the element.
    pub fn tag(&self) -> (r: &Tag)
        ensures
            *r == self@.tag,
    {
        &self.tag
    }

    /// The attributes of the element, in their order.
    pub fn attributes(&self) -> (r: &Vec<Attribute>)
        ensures
            r.deep_view() == self@.attributes,
    {
        &self.attributes
    }

    /// The start tag as HTML text, or `None` where an attribute is not UTF-8.
    pub fn render(&self) -> (r: Option<String>)
        ensures
            r is Some <==> self@.renderable(),
            r matches Some(text) ==> text@ == self@.html(),
    {
        let mut out = String::from_str("<");
        out.append(self.tag.as_str());
        let mut i: usize = 0;
        while i < self.attributes.len()
            invariant
                i <= self.attributes.len(),
                forall|j: int| 0 <= j < i ==> (#[trigger] self@.attributes[j]).renderable(),
                out@ == "<"@ + self@.tag.name() + attributes_html(self@.attributes.take(i as int)),
            decreases self.attributes.len() - i,
        {
            match self.attributes[i].render() {
                Some(text) => {
                    out.append(" ");
                    out.append(text.as_str());
                },
                None => {
                    assert(!self@.attributes[i as int].renderable());
                    return None;
                },
            }
            i += 1;
            proof {
                let done = self@.attributes.take(i as int);
                assert(done.drop_last() =~= self@.attributes.take(i - 1));
                assert(out@ =~= "<"@ + self@.tag.name() + attributes_html(done));
            }
        }
        out.append(">");
        assert(self@.attributes.take(i as int) =~= self@.attributes);
        Some(out)
    }
}

impl ToHTML for NodeElement {
    open spec fn renderable(&self) -> bool {
        self@.renderable()
    }

    open spec fn html(&self) -> Seq<char> {
        self@.html()
    }

    fn to_html(&self) -> (r: String) {
        self.render().unwrap()
    }
}

/// The payload of a node.
pub enum NodeData {
    /// An element with its tag and attributes.
    Element(NodeElement),
    /// A run of text.
    Data(String),
}

impl View for NodeData {
    type V = Payload;

    open spec fn view(&self) -> Payload {
        match self {
            NodeData::Element(element) => Payload::Element(element@),
            NodeData::Data(text) => Payload::Data(text@),
        }
    }
}

/// The payload of a node that may have none.
pub open spec fn payload_view(data: Option<NodeData>) -> Option<Payload> {
    match data {
        Some(data) => Some(data@),
        None => None,
    }
}

impl NodeData {
    /// What begins the node as HTML text: the start tag of an element, or
    /// the text; `None` where an attribute is not UTF-8.
    pub fn render(&self) -> (r: Option<String>)
        ensures
            r is Some <==> payload_renderable(Some(self@)),
            r matches Some(text) ==> text@ == opening_html(Some(self@)),
    {
        match self {
            NodeData::Element(element) => element.render(),
            NodeData::Data(text) => Some(text.clone()),
        }
    }

    /// The payload as text, which is its HTML text.
    pub fn to_string(&self) -> (r: String)
        requires
            payload_renderable(Some(self@)),
        ensures
            r@ == opening_html(Some(self@)),
    {
        self.render().unwrap()
    }
}

impl ToHTML for NodeData {
    open spec fn renderable(&self) -> bool {
        payload_renderable(Some(self@))
    }

    open spec fn html(&self) -> Seq<char> {
        opening_html(Some(self@))
    }

    fn to_html(&self) -> (r: String) {
        self.render().unwrap()
    }
}

/// A node of the tree.
pub struct Node {
    id: NodeId,
    parent: Option<NodeId>,
    children: Vec<NodeId>,
    data: Option<NodeData>,
}

impl View for Node {
    type V = NodeView;

    closed spec fn view(&self) -> NodeView {
        NodeView {
            id: self.id,
            parent: self.parent,
            children: self.children@,
            data: payload_view(self.data),
        }
    }
}

impl Node {
    /// Creates an element node that belongs to no tree yet.
    pub fn new_element(tag: Tag, attributes: Vec<Attribute>) -> (r: Node)
        ensures
            r@ == NodeView::detached(
                Payload::Element(ElementView { tag, attributes: attributes.deep_view() }),
            ),
    {
        Node {
            id: 0,
            parent: None,
            children: Vec::new(),
            data: Some(NodeData::Element(NodeElement { tag, attributes })),
        }
    }

    /// Creates a text node that belongs to no tree yet.
    pub fn new_data(data: String) -> (r: Node)
        ensures
            r@ == NodeView::detached(Payload::Data(data@)),
    {
        Node { id: 0, parent: None, children: Vec::new(), data: Some(NodeData::Data(data)) }
    }

    /// Tests whether the node is an element.
    pub fn is_element(&self) -> (r: bool)
        ensures
            r == (self@.data matches Some(Payload::Element(_))),
    {
        match &self.data {
            Some(NodeData::Element(_)) => true,
            _ => false,
        }
    }

    /// Tests whether the node is text.
    pub fn is_data(&self) -> (r: bool)
        ensures
            r == (self@.data matches Some(Payload::Data(_))),
    {
        match &self.data {
            Some(NodeData::Data(_)) => true,
            _ => false,
        }
    }

    /// The element that the node holds, if it holds one.
    pub fn element(&self) -> (r: Option<&NodeElement>)
        ensures
            match r {
                Some(element) => self@.data == Some(Payload::Element(element@)),
                None => !(self@.data matches Some(Payload::Element(_))),
            },
    {
        match &self.data {
            Some(NodeData::Element(element)) => Some(element),
            _ => None,
        }
    }

    /// The payload of the node.
    pub fn data(&self) -> (r: &NodeData)
        requires
            self@.data is Some,
        ensures
            self@.data == Some(r@),
    {
        self.data.as_ref().unwrap()
    }

    /// The id of the node in its tree.
    pub fn id(&self) -> (r: NodeId)
        ensures
            r == self@.id,
    {
        self.id
    }

    /// The id of the node's parent; the root has none.
    pub fn parent(&self) -> (r: Option<NodeId>)
        ensures
            r == self@.parent,
    {
        self.parent
    }

    /// The ids of the node's children, in document order.
    pub fn children(&self) -> (r: &Vec<NodeId>)
        ensures
            r@ == self@.children,
    {
        &self.children
    }
}

/// The arena that owns the nodes of a tree.
pub struct Store {
    nodes: Vec<Option<Node>>,
}

/// A slot of the arena as the tree sees it.
pub open spec fn slot_view(slot: Option<Node>) -> Option<NodeView> {
    match slot {
        Some(node) => Some(node@),
        None => None,
    }
}

impl View for Store {
    type V = Tree;

    closed spec fn view(&self) -> Tree {
        Tree { nodes: Seq::new(self.nodes@.len(), |i: int| slot_view(self.nodes@[i])) }
    }
}

/// Takes `id` out of a list of children.
fn remove_child(children: &mut Vec<NodeId>, id: NodeId)
    requires
        rising(old(children)@),
    ensures
        final(children)@ == old(children)@.remove_value(id),
{
    proof {
        children@.index_of_first_ensures(id);
    }
    let mut k: usize = 0;
    while k < children.len()
        invariant
            k <= children.len(),
            children@ == old(children)@,
            rising(children@),
            forall|j: int| 0 <= j < k ==> children@[j] != id,
        decreases children.len() - k,
    {
        if children[k] == id {
            proof {
                children@.index_of_first_ensures(id);
                let first = children@.index_of_first(id);
                assert(children@.contains(id));
                assert(first == Some(k as int));
            }
            children.remove(k);
            return ;
        }
        k += 1;
    }
}

impl Store {
    /// Creates an arena that holds the root and nothing else.
    pub fn new() -> (r: Store)
        ensures
            r@ == Tree::empty(),
            r@.wf(),
    {
        let r = Store {
            nodes: vec![Some(Node { id: 0, parent: None, children: Vec::new(), data: None })],
        };
        assert(r@.nodes =~= Tree::empty().nodes);
        r
    }

    /// Tests whether `id` names a node that has not been removed.
    pub fn is_node(&self, id: NodeId) -> (r: bool)
        ensures
            r == self@.live(id as int),
    {
        id < self.nodes.len() && self.nodes[id].is_some()
    }

    /// The number of live nodes, the root among them.
    pub fn len(&self) -> (r: usize)
        ensures
            r == self@.count(),
    {
        let mut cnt: usize = 0;
        let mut i: usize = 0;
        while i < self.nodes.len()
            invariant
                i <= self.nodes.len(),
                cnt == self@.live_below(i as int),
                cnt <= i,
            decreases self.nodes.len() - i,
        {
            if self.nodes[i].is_some() {
                cnt += 1;
            }
            i += 1;
        }
        cnt
    }

    /// The node that `id` names, or `NodeNotFound` where it names none.
    pub fn get(&self, id: NodeId) -> (r: Result<&Node, Error>)
        ensures
            match r {
                Ok(node) => self@.live(id as int) && node@ == self@.node(id as int),
                Err(e) => !self@.live(id as int) && e == Error::NodeNotFound,
            },
    {
        if id < self.nodes.len() {
            match &self.nodes[id] {
                Some(node) => Ok(node),
                None => Err(Error::NodeNotFound),
            }
        } else {
            Err(Error::NodeNotFound)
        }
    }

    /// Adds a node under the parent that it names. The arena gives the node
    /// its id, the next one, and an empty child list.
    pub fn add(&mut self, node: Node) -> (r: Result<NodeId, Error>)
        requires
            old(self)@.wf(),
        ensures
            final(self)@.wf(),
            match r {
                Ok(id) => {
                    &&& node@.parent is Some
                    &&& old(self)@.live(node@.parent->0 as int)
                    &&& id == old(self)@.nodes.len()
                    &&& final(self)@ == old(self)@.inserted(node@.parent->0, node@.data)
                },
                Err(e) => {
                    &&& !(node@.parent is Some && old(self)@.live(node@.parent->0 as int))
                    &&& e == Error::InvalidParent
                    &&& final(self)@ == old(self)@
                },
            },
    {
        let parent = match node.parent {
            Some(parent) => parent,
            None => {
                return Err(Error::InvalidParent);
            },
        };
        if !self.is_node(parent) {
            return Err(Error::InvalidParent);
        }
        let id = self.nodes.len();
        let mut node = node;
        node.id = id;
        node.children = Vec::new();
        match &mut self.nodes[parent] {
            Some(above) => {
                above.children.push(id);
            },
            None => {},
        }
        self.nodes.push(Some(node));
        let held = self.nodes.len();
        proof {
            assert(old(self)@.nodes.len() < held);
            assert(self@.nodes =~= old(self)@.inserted(parent, node@.data).nodes);
            old(self)@.lemma_inserted_wf(parent, node@.data);
        }
        Ok(id)
    }

    /// Creates a node under `parent`, without payload, and gives its id.
    pub fn new_node_with_parent(&mut self, parent: NodeId) -> (r: Result<NodeId, Error>)
        requires
            old(self)@.wf(),
        ensures
            final(self)@.wf(),
            match r {
                Ok(id) => {
                    &&& old(self)@.live(parent as int)
                    &&& id == old(self)@.nodes.len()
                    &&& final(self)@ == old(self)@.inserted(parent, None)
                },
                Err(e) => {
                    &&& !old(self)@.live(parent as int)
                    &&& e == Error::InvalidParent
                    &&& final(self)@ == old(self)@
                },
            },
    {
        if !self.is_node(parent) {
            return Err(Error::InvalidParent);
        }
        self.add(Node { id: 0, parent: Some(parent), children: Vec::new(), data: None })
    }

    /// Lists the node `id` and all that hangs under it, children first.
    fn recurse_remove_node(&self, id: NodeId, nodes: &mut Vec<NodeId>)
        requires
            self@.wf(),
            self@.live(id as int),
        ensures
            final(nodes)@ == old(nodes)@ + self@.subtree(id as int),
        decreases self.nodes.len() - id,
    {
        let node = self.nodes[id].as_ref().unwrap();
        let mut k: usize = 0;
        while k < node.children.len()
            invariant
                self@.wf(),
                self@.live(id as int),
                node@ == self@.node(id as int),
                k <= node.children.len(),
                nodes@ == old(nodes)@ + self@.below(id as int, k as int),
            decreases node.children.len() - k,
        {
            let child = node.children[k];
            assert(self@.sound(id as int));
            assert(self@.linked(id as int, self@.node(id as int).children[k as int]));
            assert(self@.sound(child as int));
            self.recurse_remove_node(child, nodes);
            k += 1;
            assert(nodes@ =~= old(nodes)@ + self@.below(id as int, k as int));
        }
        nodes.push(id);
        assert(nodes@ =~= old(nodes)@ + self@.subtree(id as int));
    }

    /// Removes the node `id` and all that hangs under it. Their ids are not
    /// given out again. Nothing happens where `id` names no live node, or
    /// names the root.
    pub fn remove(&mut self, id: NodeId)
        requires
            old(self)@.wf(),
        ensures
            final(self)@.wf(),
            final(self)@ == old(self)@.removed(id as int),
            final(self)@.nodes.len() == old(self)@.nodes.len(),
            old(self)@.live(id as int) && id != 0 ==> final(self)@.count() == old(self)@.count()
                - old(self)@.subtree(id as int).len(),
    {
        if id == ROOT_NODE_ID || !self.is_node(id) {
            return ;
        }
        let ghost tree = self@;
        let ghost list = tree.subtree(id as int);
        let mut nodes: Vec<NodeId> = Vec::new();
        self.recurse_remove_node(id, &mut nodes);
        proof {
            assert(nodes@ =~= list);
            tree.lemma_subtree_last(id as int);
            tree.lemma_subtree_no_duplicates(id as int);
            assert(tree.sound(id as int));
            if list.contains(tree.node(id as int).parent->0) {
                tree.lemma_subtree_under(id as int, tree.node(id as int).parent->0);
            }
            assert forall|j: int| 0 <= j < list.len() implies self@.live(
                #[trigger] list[j] as int,
            ) && rising(self@.node(list[j] as int).children) by {
                assert(list.contains(list[j]));
                tree.lemma_subtree_under(id as int, list[j]);
                assert(tree.sound(list[j] as int));
            }
        }
        let ghost above = tree.node(id as int).parent->0;
        let mut k: usize = 0;
        while k < nodes.len()
            invariant
                k <= nodes.len(),
                nodes@ == list,
                tree == old(self)@,
                tree.wf(),
                tree.live(id as int),
                id != 0,
                list == tree.subtree(id as int),
                list.len() > 0,
                list.last() == id,
                list.no_duplicates(),
                above == tree.node(id as int).parent->0,
                !list.contains(above),
                self@.nodes.len() == tree.nodes.len(),
                self@.count() == tree.count() - k,
                forall|i: int|
                    0 <= i < tree.nodes.len() ==> #[trigger] self@.nodes[i] == (if list.take(
                        k as int,
                    ).contains(i as usize) {
                        None
                    } else if list.contains(i as usize) {
                        self@.nodes[i]
                    } else if i == above && k == list.len() {
                        Some(
                            NodeView {
                                children: tree.node(i).children.remove_value(id),
                                ..tree.node(i)
                            },
                        )
                    } else {
                        tree.nodes[i]
                    }),
                forall|j: int|
                    k <= j < list.len() ==> self@.live(#[trigger] list[j] as int) && self@.node(
                        list[j] as int,
                    ).parent == tree.node(list[j] as int).parent && rising(
                        self@.node(list[j] as int).children,
                    ),
            decreases nodes.len() - k,
        {
            let nid = nodes[k];
            let ghost before = self@;
            proof {
                assert(list.contains(list[k as int]));
                tree.lemma_subtree_under(id as int, nid);
                assert(tree.sound(nid as int));
            }
            let parent_id = self.nodes[nid].as_ref().unwrap().parent.unwrap();
            proof {
                if nid != id {
                    tree.lemma_subtree_parent(id as int, nid);
                    let q = choose|q: int| 0 <= q < list.len() && list[q] == parent_id;
                    if q < k {
                        assert(list.take(k as int)[q] == parent_id);
                        assert(list.take(k as int).contains(parent_id));
                        assert(self@.nodes[parent_id as int] is None);
                    } else {
                        assert(self@.live(list[q] as int));
                    }
                } else {
                    assert(k == list.len() - 1);
                    assert(self@.nodes[above as int] == tree.nodes[above as int]);
                    assert(tree.sound(above as int));
                }
            }
            match &mut self.nodes[parent_id] {
                Some(parent) => {
                    remove_child(&mut parent.children, nid);
                },
                None => {},
            }
            self.nodes[nid] = None;
            k += 1;
            proof {
                let after = self@;
                assert(list.take(k as int) =~= list.take(k - 1).push(nid));
                if before.live(parent_id as int) {
                    lemma_remove_value_rising(before.node(parent_id as int).children, nid);
                }
                assert forall|i: int| 0 <= i < tree.nodes.len() implies #[trigger] after.nodes[i]
                    == (if list.take(k as int).contains(i as usize) {
                    None
                } else if list.contains(i as usize) {
                    after.nodes[i]
                } else if i == above && k == list.len() {
                    Some(
                        NodeView {
                            children: tree.node(i).children.remove_value(id),
                            ..tree.node(i)
                        },
                    )
                } else {
                    tree.nodes[i]
                }) by {
                    lemma_concat_contains(list.take(k - 1), seq![nid], i as usize);
                    assert(seq![nid][0] == nid);
                    assert(list.take(k - 1).push(nid) =~= list.take(k - 1) + seq![nid]);
                    if i == nid {
                    } else if list.take(k - 1).contains(i as usize) {
                        assert(before.nodes[i] is None);
                    } else if list.contains(i as usize) {
                    } else {
                        assert(before.nodes[i] == tree.nodes[i]);
                    }
                }
                assert forall|j: int| k <= j < list.len() implies after.live(
                    #[trigger] list[j] as int,
                ) && after.node(list[j] as int).parent == tree.node(list[j] as int).parent
                    && rising(after.node(list[j] as int).children) by {
                    assert(list[j] != nid);
                    assert(before.live(list[j] as int));
                }
                assert forall|i: int| i != nid implies before.live(i) == after.live(i) by {}
                before.lemma_live_below_drop(after, nid as int, tree.nodes.len() as int);
            }
        }
        proof {
            assert(list.take(list.len() as int) =~= list);
            assert(self@.nodes =~= tree.removed(id as int).nodes);
            tree.lemma_removed_wf(id as int);
        }
    }

    /// Removes the nodes that `ids` names, one after the other, each with
    /// all that hangs under it.
    pub fn prune(&mut self, ids: &Vec<NodeId>)
        requires
            old(self)@.wf(),
        ensures
            final(self)@.wf(),
            final(self)@ == old(self)@.without(ids@),
    {
        let mut k: usize = 0;
        while k < ids.len()
            invariant
                k <= ids.len(),
                self@.wf(),
                self@ == old(self)@.without(ids@.take(k as int)),
            decreases ids.len() - k,
        {
            self.remove(ids[k]);
            k += 1;
            assert(ids@.take(k as int).drop_last() =~= ids@.take(k - 1));
        }
        assert(ids@.take(k as int) =~= ids@);
    }

    /// Lists the nodes under `id` in document order, each with its depth.
    fn walk_into(&self, id: NodeId, level: usize, out: &mut Vec<(NodeId, usize)>)
        requires
            self@.wf(),
            self@.live(id as int),
            level <= id,
        ensures
            final(out)@ == old(out)@ + self@.walk(id as int, level),
        decreases self.nodes.len() - id,
    {
        let node = self.nodes[id].as_ref().unwrap();
        let mut k: usize = 0;
        while k < node.children.len()
            invariant
                self@.wf(),
                self@.live(id as int),
                level <= id,
                node@ == self@.node(id as int),
                k <= node.children.len(),
                out@ == old(out)@ + self@.walk_below(id as int, k as int, level),
            decreases node.children.len() - k,
        {
            let child = node.children[k];
            assert(self@.sound(id as int));
            assert(self@.linked(id as int, self@.node(id as int).children[k as int]));
            assert(self@.sound(child as int));
            out.push((child, level));
            self.walk_into(child, level + 1, out);
            k += 1;
            assert(out@ =~= old(out)@ + self@.walk_below(id as int, k as int, level));
        }
        assert(out@ =~= old(out)@ + self@.walk(id as int, level));
    }

    /// The nodes under `id` in document order, every node before its
    /// children, each with its depth, counted from 0 at the children of
    /// `id`; none where `id` names no live node.
    pub fn preorder(&self, id: NodeId) -> (r: Vec<(NodeId, usize)>)
        requires
            self@.wf(),
        ensures
            r@ == self@.walk(id as int, 0),
    {
        let mut out: Vec<(NodeId, usize)> = Vec::new();
        if self.is_node(id) {
            self.walk_into(id, 0, &mut out);
        }
        assert(out@ =~= self@.walk(id as int, 0));
        out
    }

    /// Visits the nodes under `id` in document order, every node before
    /// its children, and calls `enter` with the id and the depth of each.
    pub fn recurse<F: FnMut(NodeId, usize)>(&self, id: NodeId, mut enter: F)
        requires
            self@.wf(),
            forall|node: NodeId, depth: usize| call_requires(enter, (node, depth)),
        ensures
            forall|k: int|
                0 <= k < self@.walk(id as int, 0).len() ==> call_ensures(
                    enter,
                    #[trigger] self@.walk(id as int, 0)[k],
                    (),
                ),
    {
        let order = self.preorder(id);
        let ghost visitor = enter;
        let mut k: usize = 0;
        while k < order.len()
            invariant
                k <= order.len(),
                order@ == self@.walk(id as int, 0),
                enter == visitor,
                forall|node: NodeId, depth: usize| call_requires(enter, (node, depth)),
                forall|j: int| 0 <= j < k ==> call_ensures(enter, #[trigger] order@[j], ()),
            decreases order.len() - k,
        {
            let (node, depth) = order[k];
            enter(node, depth);
            k += 1;
        }
    }

    /// The node in the slot `id`, as the arena holds it.
    pub closed spec fn stored(&self, id: int) -> Node {
        self.nodes@[id]->0
    }

    /// What a stored node shows is what the tree has in its place.
    pub proof fn lemma_stored(&self, id: int)
        requires
            self@.live(id),
        ensures
            self.stored(id)@ == self@.node(id),
    {
    }

    /// `verdicts` holds, for each node of a visit from the root, an answer
    /// that `keep` may give for that node.
    pub open spec fn judged<F: FnMut(&Node) -> bool>(&self, keep: F, verdicts: Seq<bool>) -> bool {
        let order = self@.walk(0, 0);
        &&& verdicts.len() == order.len()
        &&& forall|k: int|
            0 <= k < order.len() ==> call_ensures(
                keep,
                (&self.stored(order[k].0 as int),),
                #[trigger] verdicts[k],
            )
    }

    /// Keeps the nodes for which `keep` answers `true`. Every node but the
    /// root is asked about once, in document order, before anything is
    /// removed; then each node that got `false` is removed with all that
    /// hangs under it.
    pub fn retain<F: FnMut(&Node) -> bool>(&mut self, mut keep: F)
        requires
            old(self)@.wf(),
            forall|node: &Node| call_requires(keep, (node,)),
        ensures
            final(self)@.wf(),
            exists|verdicts: Seq<bool>|
                old(self).judged(keep, verdicts) && final(self)@ == old(self)@.without(
                    rejected(old(self)@.walk(0, 0), verdicts),
                ),
            (forall|node: &Node, r: bool| call_ensures(keep, (node,), r) ==> r) ==> final(self)@
                == old(self)@,
            (forall|node: &Node, r: bool| call_ensures(keep, (node,), r) ==> !r)
                ==> final(self)@.count() == 1,
    {
        let order = self.preorder(ROOT_NODE_ID);
        let ghost judge = keep;
        let ghost mut verdicts: Seq<bool> = Seq::empty();
        let mut nodes: Vec<NodeId> = Vec::new();
        let mut k: usize = 0;
        while k < order.len()
            invariant
                k <= order.len(),
                self@.wf(),
                self == old(self),
                order@ == self@.walk(0, 0),
                keep == judge,
                forall|node: &Node| call_requires(keep, (node,)),
                verdicts.len() == k,
                forall|j: int|
                    0 <= j < k ==> call_ensures(
                        keep,
                        (&self.stored(order@[j].0 as int),),
                        #[trigger] verdicts[j],
                    ),
                nodes@ == rejected(order@.take(k as int), verdicts),
            decreases order.len() - k,
        {
            let id = order[k].0;
            proof {
                assert(visited(order@, id));
                self@.lemma_walk_reaches(id);
            }
            let verdict = keep(self.nodes[id].as_ref().unwrap());
            if !verdict {
                nodes.push(id);
            }
            proof {
                let earlier = verdicts;
                verdicts = verdicts.push(verdict);
                assert(verdicts.drop_last() =~= earlier);
                assert(order@.take(k + 1).drop_last() =~= order@.take(k as int));
            }
            k += 1;
        }
        proof {
            assert(order@.take(k as int) =~= order@);
            assert(self.judged(judge, verdicts));
            if forall|node: &Node, r: bool| call_ensures(judge, (node,), r) ==> r {
                lemma_rejected_none(order@, verdicts);
            }
            self@.lemma_without(nodes@);
            if forall|node: &Node, r: bool| call_ensures(judge, (node,), r) ==> !r {
                let after = self@.without(nodes@);
                assert forall|i: int| i != 0 implies !after.live(i) by {
                    if after.live(i) {
                        self@.lemma_walk_reaches(i as usize);
                        lemma_rejected_all(order@, verdicts, i as usize);
                    }
                }
                after.lemma_only_root(after.nodes.len() as int);
            }
        }
        self.prune(&nodes);
    }

    /// Writes the node `id` and all under it, as HTML text, to the end of
    /// `output`; `false` where something under `id` cannot be written out.
    fn recurse_with_output(&self, id: NodeId, output: &mut String) -> (ok: bool)
        requires
            self@.wf(),
            self@.live(id as int),
        ensures
            ok == self@.renderable_of(id as int),
            ok ==> final(output)@ == old(output)@ + self@.html_of(id as int),
        decreases self.nodes.len() - id,
    {
        let node = self.nodes[id].as_ref().unwrap();
        match &node.data {
            Some(data) => {
                match data.render() {
                    Some(text) => {
                        output.append(text.as_str());
                    },
                    None => {
                        return false;
                    },
                }
            },
            None => {},
        }
        assert(output@ =~= old(output)@ + opening_html(self@.node(id as int).data));
        let mut k: usize = 0;
        while k < node.children.len()
            invariant
                self@.wf(),
                self@.live(id as int),
                node@ == self@.node(id as int),
                k <= node.children.len(),
                self@.renderable_below(id as int, k as int),
                output@ == old(output)@ + opening_html(self@.node(id as int).data)
                    + self@.html_below(id as int, k as int),
            decreases node.children.len() - k,
        {
            let child = node.children[k];
            assert(self@.sound(id as int));
            assert(self@.linked(id as int, self@.node(id as int).children[k as int]));
            assert(self@.sound(child as int));
            if !self.recurse_with_output(child, output) {
                assert(!self@.renderable_below(id as int, k + 1));
                proof {
                    self@.lemma_renderable_below(id as int, k + 1, node.children.len() as int);
                }
                return false;
            }
            k += 1;
            assert(output@ =~= old(output)@ + opening_html(self@.node(id as int).data)
                + self@.html_below(id as int, k as int));
        }
        match &node.data {
            Some(NodeData::Element(element)) => {
                output.append("</");
                output.append(element.tag.as_str());
                output.append(">");
            },
            _ => {},
        }
        assert(output@ =~= old(output)@ + self@.html_of(id as int));
        true
    }

    /// The tree as HTML text, every element with its end tag, or
    /// `InvalidUtf8` where an attribute cannot be read as text.
    pub fn serialize(&self) -> (r: Result<String, Error>)
        requires
            self@.wf(),
        ensures
            match r {
                Ok(text) => self@.renderable() && text@ == self@.html(),
                Err(e) => !self@.renderable() && e == Error::InvalidUtf8,
            },
    {
        let mut output = String::new();
        if self.recurse_with_output(ROOT_NODE_ID, &mut output) {
            assert(output@ =~= self@.html());
            Ok(output)
        } else {
            Err(Error::InvalidUtf8)
        }
    }
}

impl ToHTML for Store {
    open spec fn renderable(&self) -> bool {
        self@.wf() && self@.renderable()
    }

    open spec fn html(&self) -> Seq<char> {
        self@.html()
    }

    fn to_html(&self) -> (r: String) {
        match self.serialize() {
            Ok(text) => text,
            Err(_) => String::new(),
        }
    }
}

/// A tree under construction as its user sees it.
pub struct DomView {
    /// The tree built so far.
    pub tree: Tree,
    /// The element that was opened last and not yet closed; without one,
    /// new nodes hang under the root.
    pub cursor: Option<NodeId>,
    /// What has stopped the construction, if anything has.
    pub error: Option<Error>,
}

impl DomView {
    /// The tree is well-formed and the cursor, if there is one, is a live node.
    pub open spec fn wf(self) -> bool {
        &&& self.tree.wf()
        &&& self.cursor matches Some(id) ==> self.tree.live(id as int)
    }

    /// A tree with nothing but its root, and no cursor.
    pub open spec fn empty() -> DomView {
        DomView { tree: Tree::empty(), cursor: None, error: None }
    }

    /// The node under which new nodes hang.
    pub open spec fn anchor(self) -> NodeId {
        match self.cursor {
            Some(id) => id,
            None => ROOT_NODE_ID,
        }
    }

    /// What one event makes of the tree. A start tag adds an element under
    /// the cursor and moves the cursor to it; an end tag, whichever element
    /// it names, moves the cursor to its parent; text adds a text node under
    /// the cursor, and text that is not UTF-8 stops the construction. Once
    /// stopped, nothing changes.
    pub open spec fn apply(self, event: Event) -> DomView {
        if self.error is Some {
            self
        } else {
            match event {
                Event::StartTag(tag, attributes) => DomView {
                    tree: self.tree.inserted(
                        self.anchor(),
                        Some(Payload::Element(ElementView { tag, attributes })),
                    ),
                    cursor: Some(self.tree.nodes.len() as usize),
                    ..self
                },
                Event::EndTag(_) => DomView {
                    cursor: match self.cursor {
                        Some(id) => self.tree.node(id as int).parent,
                        None => None,
                    },
                    ..self
                },
                Event::Data(bytes) => if vstd::utf8::valid_utf8(bytes) {
                    DomView {
                        tree: self.tree.inserted(
                            self.anchor(),
                            Some(Payload::Data(vstd::utf8::decode_utf8(bytes))),
                        ),
                        ..self
                    }
                } else {
                    DomView { error: Some(Error::InvalidUtf8), ..self }
                },
            }
        }
    }

    /// What a sequence of events makes of the tree.
    pub open spec fn built(self, events: Seq<Event>) -> DomView
        decreases events.len(),
    {
        if events.len() == 0 {
            self
        } else {
            self.built(events.drop_last()).apply(events.last())
        }
    }

    /// After a pruning of the tree the cursor stays where it was if that
    /// node is still there; else there is no cursor.
    pub open spec fn pruned(self, tree: Tree) -> DomView {
        DomView {
            tree,
            cursor: match self.cursor {
                Some(id) => if tree.live(id as int) {
                    Some(id)
                } else {
                    None
                },
                None => None,
            },
            ..self
        }
    }
}

/// A DOM tree and the means to build it from a document.
pub struct Dom {
    store: Store,
    current: Option<NodeId>,
    error: Option<Error>,
}

impl View for Dom {
    type V = DomView;

    closed spec fn view(&self) -> DomView {
        DomView { tree: self.store@, cursor: self.current, error: self.error }
    }
}

impl Dom {
    /// Creates a tree that holds nothing but its root.
    pub fn new() -> (r: Dom)
        ensures
            r@ == DomView::empty(),
            r@.wf(),
    {
        Dom { store: Store::new(), current: None, error: None }
    }

    /// Builds a tree from a document held in memory.
    pub fn build(source: &[u8]) -> (r: Result<Dom, ParseError>)
        ensures
            ({
                let run = Machine::run(source@);
                let built = DomView::empty().built(run.events);
                match r {
                    Ok(dom) => dom@ == built && dom@.wf() && built.error is None && !run.failed,
                    Err(e) => if built.error is Some {
                        e == (ParseError { error: built.error->0, consumed: run.used as usize })
                    } else {
                        run.failed && e == (ParseError {
                            error: Error::UnknownTag,
                            consumed: run.used as usize,
                        })
                    },
                }
            }),
    {
        let mut dom = Dom::new();
        match dom.parse(source) {
            Ok(_) => Ok(dom),
            Err(e) => Err(e),
        }
    }

    /// Parses a document held in memory and builds the tree from it, under
    /// the cursor that an earlier document may have left.
    ///
    /// The result is the number of bytes consumed. The parse fails with
    /// `InvalidUtf8` where a run of text is not UTF-8, and with `UnknownTag`
    /// where a tag name is not recognised; the tree then holds what was
    /// built before.
    pub fn parse(&mut self, source: &[u8]) -> (r: Result<usize, ParseError>)
        requires
            old(self)@.wf(),
        ensures
            final(self)@.wf(),
            ({
                let run = Machine::run(source@);
                &&& final(self)@ == old(self)@.built(run.events)
                &&& r == if final(self)@.error is Some {
                    Err::<usize, ParseError>(
                        ParseError { error: final(self)@.error->0, consumed: run.used as usize },
                    )
                } else if run.failed {
                    Err::<usize, ParseError>(
                        ParseError { error: Error::UnknownTag, consumed: run.used as usize },
                    )
                } else {
                    Ok::<usize, ParseError>(run.used as usize)
                }
            }),
    {
        let outcome = Parser::parse(source, self);
        proof {
            lemma_dom_delivered(*old(self), Machine::run(source@).events, *self);
        }
        let consumed = match outcome {
            Ok(consumed) => consumed,
            Err(e) => e.consumed,
        };
        match self.error {
            Some(error) => Err(ParseError { error, consumed }),
            None => outcome,
        }
    }

    /// The number of nodes, the root not counted.
    pub fn len(&self) -> (r: usize)
        requires
            self@.wf(),
        ensures
            r == self@.tree.count() - 1,
    {
        proof {
            self@.tree.lemma_count_root(self@.tree.nodes.len() as int);
        }
        self.store.len() - 1
    }

    /// Tests whether `id` names a node that has not been removed.
    pub fn is_node(&self, id: NodeId) -> (r: bool)
        ensures
            r == self@.tree.live(id as int),
    {
        self.store.is_node(id)
    }

    /// What has stopped the construction, if anything has.
    pub fn error(&self) -> (r: Option<Error>)
        ensures
            r == self@.error,
    {
        self.error
    }

    /// The node that `id` names, or `NodeNotFound` where it names none.
    pub fn get(&self, id: NodeId) -> (r: Result<&Node, Error>)
        ensures
            match r {
                Ok(node) => self@.tree.live(id as int) && node@ == self@.tree.node(id as int),
                Err(e) => !self@.tree.live(id as int) && e == Error::NodeNotFound,
            },
    {
        self.store.get(id)
    }

    /// The node in the slot `id`, as the tree holds it.
    pub closed spec fn stored(&self, id: int) -> Node {
        self.store.stored(id)
    }

    /// What a stored node shows is what the tree has in its place.
    pub proof fn lemma_stored(&self, id: int)
        requires
            self@.tree.live(id),
        ensures
            self.stored(id)@ == self@.tree.node(id),
    {
    }

    /// `verdicts` holds, for each node of a visit from the root, an answer
    /// that `keep` may give for that node.
    pub open spec fn judged<F: FnMut(&Node) -> bool>(&self, keep: F, verdicts: Seq<bool>) -> bool {
        let order = self@.tree.walk(0, 0);
        &&& verdicts.len() == order.len()
        &&& forall|k: int|
            0 <= k < order.len() ==> call_ensures(
                keep,
                (&self.stored(order[k].0 as int),),
                #[trigger] verdicts[k],
            )
    }

    /// Visits the nodes in document order, every node before its children,
    /// and calls `enter` with the id and the depth of each.
    pub fn recurse<F: FnMut(NodeId, usize)>(&self, enter: F)
        requires
            self@.wf(),
            forall|node: NodeId, depth: usize| call_requires(enter, (node, depth)),
        ensures
            forall|k: int|
                0 <= k < self@.tree.walk(0, 0).len() ==> call_ensures(
                    enter,
                    #[trigger] self@.tree.walk(0, 0)[k],
                    (),
                ),
    {
        self.store.recurse(ROOT_NODE_ID, enter)
    }

    /// Keeps the nodes for which `keep` answers `true`. Every node is asked
    /// about once, in document order, before anything is removed; then each
    /// node that got `false` is removed with all that hangs under it.
    pub fn retain<F: FnMut(&Node) -> bool>(&mut self, keep: F)
        requires
            old(self)@.wf(),
            forall|node: &Node| call_requires(keep, (node,)),
        ensures
            final(self)@.wf(),
            exists|verdicts: Seq<bool>|
                old(self).judged(keep, verdicts) && final(self)@ == old(self)@.pruned(
                    old(self)@.tree.without(rejected(old(self)@.tree.walk(0, 0), verdicts)),
                ),
            (forall|node: &Node, r: bool| call_ensures(keep, (node,), r) ==> r) ==> final(self)@
                == old(self)@,
            (forall|node: &Node, r: bool| call_ensures(keep, (node,), r) ==> !r)
                ==> final(self)@.tree.count() == 1,
    {
        self.store.retain(keep);
        proof {
            let verdicts = choose|verdicts: Seq<bool>|
                old(self).store.judged(keep, verdicts) && self.store@ == old(self).store@.without(
                    rejected(old(self).store@.walk(0, 0), verdicts),
                );
            assert(old(self).judged(keep, verdicts));
        }
        match self.current {
            Some(id) => {
                if !self.store.is_node(id) {
                    self.current = None;
                }
            },
            None => {},
        }
    }

    /// The tree as HTML text, every element with its end tag, or
    /// `InvalidUtf8` where an attribute cannot be read as text.
    pub fn serialize(&self) -> (r: Result<String, Error>)
        requires
            self@.wf(),
        ensures
            match r {
                Ok(text) => self@.tree.renderable() && text@ == self@.tree.html(),
                Err(e) => !self@.tree.renderable() && e == Error::InvalidUtf8,
            },
    {
        self.store.serialize()
    }

    /// An outline of the tree for the eye: a line for every node in
    /// document order, indented by its depth, or `InvalidUtf8` where an
    /// attribute cannot be read as text.
    pub fn to_string(&self) -> (r: Result<String, Error>)
        requires
            self@.wf(),
        ensures
            match r {
                Ok(text) => {
                    &&& self@.tree.outline_renderable(self@.tree.walk(0, 0))
                    &&& text@ == self@.tree.outline(self@.tree.walk(0, 0))
                },
                Err(e) => {
                    &&& !self@.tree.outline_renderable(self@.tree.walk(0, 0))
                    &&& e == Error::InvalidUtf8
                },
            },
    {
        let order = self.store.preorder(ROOT_NODE_ID);
        let mut out = String::new();
        let mut k: usize = 0;
        while k < order.len()
            invariant
                k <= order.len(),
                self@.wf(),
                order@ == self@.tree.walk(0, 0),
                self@.tree.outline_renderable(order@.take(k as int)),
                out@ == self@.tree.outline(order@.take(k as int)),
            decreases order.len() - k,
        {
            let (id, depth) = order[k];
            proof {
                assert(visited(order@, id));
                self@.tree.lemma_walk_reaches(id);
                assert(order@.take(k + 1).drop_last() =~= order@.take(k as int));
            }
            match &self.store.nodes[id].as_ref().unwrap().data {
                Some(NodeData::Element(element)) => {
                    match element.render() {
                        Some(text) => {
                            let line = outline_line_string(depth, id, "element", text.as_str());
                            out.append(line.as_str());
                        },
                        None => {
                            return Err(Error::InvalidUtf8);
                        },
                    }
                },
                Some(NodeData::Data(text)) => {
                    let quoted = debug_string(text.as_str());
                    let line = outline_line_string(depth, id, "data", quoted.as_str());
                    out.append(line.as_str());
                },
                None => {},
            }
            k += 1;
        }
        assert(order@.take(k as int) =~= order@);
        Ok(out)
    }

    /// Hangs a node with the given payload under the cursor and gives its id.
    fn attach(&mut self, data: NodeData) -> (id: NodeId)
        requires
            old(self)@.wf(),
        ensures
            final(self)@.tree == old(self)@.tree.inserted(old(self)@.anchor(), Some(data@)),
            final(self)@.tree.wf(),
            final(self)@.cursor == old(self)@.cursor,
            final(self)@.error == old(self)@.error,
            id == old(self)@.tree.nodes.len(),
            final(self)@.tree.live(id as int),
            forall|i: int| old(self)@.tree.live(i) ==> final(self)@.tree.live(i),
    {
        let parent = match self.current {
            Some(id) => id,
            None => ROOT_NODE_ID,
        };
        let node = Node { id: 0, parent: Some(parent), children: Vec::new(), data: Some(data) };
        match self.store.add(node) {
            Ok(id) => id,
            Err(_) => ROOT_NODE_ID,
        }
    }
}

impl IsParser for Dom {
    open spec fn reacts(before: Self, event: Event, after: Self) -> bool {
        after@ == before@.apply(event)
    }

    open spec fn valid(&self) -> bool {
        self@.wf()
    }

    fn handle_starttag(&mut self, tag: &Tag, attributes: &Vec<Attribute>) {
        if self.error.is_some() {
            return ;
        }
        let element = NodeElement { tag: *tag, attributes: attributes.clone() };
        assert(element@.attributes =~= attributes.deep_view());
        let id = self.attach(NodeData::Element(element));
        self.current = Some(id);
    }

    fn handle_endtag(&mut self, tag: &Tag) {
        if self.error.is_some() {
            return ;
        }
        match self.current {
            Some(id) => {
                proof {
                    assert(self@.tree.sound(id as int));
                }
                self.current = match self.store.get(id) {
                    Ok(node) => node.parent,
                    Err(_) => None,
                };
            },
            None => {},
        }
    }

    fn handle_data(&mut self, data: &Vec<u8>) {
        if self.error.is_some() {
            return ;
        }
        match string_from_utf8(data.clone()) {
            Some(text) => {
                self.attach(NodeData::Data(text));
            },
            None => {
                self.error = Some(Error::InvalidUtf8);
            },
        }
    }
}

/// A tree that was told of some events is what those events make of it.
pub proof fn lemma_dom_delivered(before: Dom, events: Seq<Event>, after: Dom)
    requires
        crate::parser::delivered(before, events, after),
    ensures
        after@ == before@.built(events),
    decreases events.len(),
{
    if events.len() > 0 {
        let between = choose|between: Dom|
            crate::parser::delivered(before, events.drop_last(), between) && Dom::reacts(
                between,
                events.last(),
                after,
            );
        lemma_dom_delivered(before, events.drop_last(), between);
    }
}

impl ToHTML for Dom {
    open spec fn renderable(&self) -> bool {
        self@.wf() && self@.tree.renderable()
    }

    open spec fn html(&self) -> Seq<char> {
        self@.tree.html()
    }

    fn to_html(&self) -> (r: String) {
        self.store.to_html()
    }
}

impl core::ops::Index<usize> for Dom {
    type Output = Node;

    fn index(&self, idx: usize) -> (r: &Node)
        ensures
            r@ == self@.tree.node(idx as int),
    {
        self.store.nodes[idx].as_ref().unwrap()
    }
}

impl vstd::std_specs::core::IndexSpecImpl<usize> for Dom {
    open spec fn index_req(&self, index: &usize) -> bool {
        self@.tree.live(*index as int)
    }
}

/// Writes a line of the outline of a tree.
pub fn outline_line_string(depth: usize, id: NodeId, kind: &str, text: &str) -> (r: String)
    ensures
        r@ == outline_line(depth, id, kind@, text@),
{
    let mut out = String::new();
    let mut level: usize = 0;
    while level < depth
        invariant
            level <= depth,
            out@ == indent(level as nat),
        decreases depth - level,
    {
        out.append("  ");
        level += 1;
    }
    out.append("node(");
    let number = decimal_string(id);
    out.append(number.as_str());
    out.append(") ");
    out.append(kind);
    out.append(": ");
    out.append(text);
    out.append("\n");
    out
}

} // verus!
