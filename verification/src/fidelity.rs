use vstd::prelude::*;
use crate::dom::DomView;
use crate::tree::{closing_html, opening_html, ElementView, NodeId, Payload, Tree};
use crate::machine::{Event, Machine};
use crate::tag::Tag;

verus! {

/// An event as it is written in markup: a start tag with its attributes in
/// their order and their values in double quotes, an end tag, or the text.
pub open spec fn event_html(event: Event) -> Seq<char> {
    match event {
        Event::StartTag(tag, attributes) => (ElementView { tag, attributes }).html(),
        Event::EndTag(tag) => "</"@ + tag.name() + ">"@,
        Event::Data(bytes) => vstd::utf8::decode_utf8(bytes),
    }
}

/// Events as they are written in markup, one after the other.
pub open spec fn events_html(events: Seq<Event>) -> Seq<char>
    decreases events.len(),
{
    if events.len() == 0 {
        Seq::empty()
    } else {
        events_html(events.drop_last()) + event_html(events.last())
    }
}

/// The elements that are open after the events, the outermost first.
pub open spec fn open_tags(events: Seq<Event>) -> Seq<Tag>
    decreases events.len(),
{
    if events.len() == 0 {
        Seq::empty()
    } else {
        let before = open_tags(events.drop_last());
        match events.last() {
            Event::StartTag(tag, _) => before.push(tag),
            Event::EndTag(_) => if before.len() > 0 {
                before.drop_last()
            } else {
                before
            },
            Event::Data(_) => before,
        }
    }
}

/// Events in which every end tag names the element that was opened last and
/// is still open, and in which all text is UTF-8.
pub open spec fn well_nested(events: Seq<Event>) -> bool
    decreases events.len(),
{
    events.len() == 0 || (well_nested(events.drop_last()) && match events.last() {
        Event::StartTag(_, _) => true,
        Event::EndTag(tag) => open_tags(events.drop_last()).len() > 0 && open_tags(
            events.drop_last(),
        ).last() == tag,
        Event::Data(bytes) => vstd::utf8::valid_utf8(bytes),
    })
}

/// The end tags of the open elements, the innermost first.
pub open spec fn closers(tags: Seq<Tag>) -> Seq<char>
    decreases tags.len(),
{
    if tags.len() == 0 {
        Seq::empty()
    } else {
        "</"@ + tags.last().name() + ">"@ + closers(tags.drop_last())
    }
}

impl Tree {
    /// Whether the way from the root down to `id` leads through last
    /// children only, which are elements with the tags `tags`, the
    /// outermost first.
    pub open spec fn spine(self, id: int, tags: Seq<Tag>) -> bool
        decreases tags.len(),
    {
        if tags.len() == 0 {
            id == 0
        } else {
            &&& id != 0
            &&& self.live(id)
            &&& self.node(id).data matches Some(Payload::Element(element))
            &&& element.tag == tags.last()
            &&& self.node(id).parent is Some
            &&& self.node(self.node(id).parent->0 as int).children.len() > 0
            &&& self.node(self.node(id).parent->0 as int).children.last() == id
            &&& self.spine(self.node(id).parent->0 as int, tags.drop_last())
        }
    }

    /// What is written before the node `id` begins, where the way to it
    /// leads through last children.
    pub open spec fn stem(self, id: int) -> Seq<char>
        decreases id,
    {
        if id <= 0 || !self.live(id) || self.node(id).parent is None || self.node(id).parent->0
            >= id {
            Seq::empty()
        } else {
            let above = self.node(id).parent->0 as int;
            self.stem(above) + opening_html(self.node(above).data) + self.html_below(
                above,
                self.node(above).children.len() - 1,
            )
        }
    }

    /// What is written up to the point where the node `id` ends.
    pub open spec fn lead(self, id: int) -> Seq<char> {
        self.stem(id) + opening_html(self.node(id).data) + self.html_below(
            id,
            self.node(id).children.len() as int,
        )
    }

    /// A node on the way down to `id` has `id` under it.
    pub proof fn lemma_spine_live(self, id: int, tags: Seq<Tag>)
        requires
            self.wf(),
            self.spine(id, tags),
        ensures
            self.live(id),
            tags.len() > 0 ==> self.live(self.node(id).parent->0 as int) && self.node(
                id,
            ).parent->0 < id,
    {
        if tags.len() > 0 {
            assert(self.sound(id));
        }
    }

    /// The tree is written as what leads up to the end of a node on the
    /// spine, and then the end tags of that node and of those above it.
    pub proof fn lemma_spine_html(self, id: int, tags: Seq<Tag>)
        requires
            self.wf(),
            self.spine(id, tags),
        ensures
            self.html() == self.lead(id) + closers(tags),
        decreases tags.len(),
    {
        if tags.len() == 0 {
            assert(self.html() =~= self.lead(0) + closers(tags));
        } else {
            assert(self.sound(id));
            let above = self.node(id).parent->0 as int;
            let n = self.node(above).children.len() as int;
            self.lemma_spine_html(above, tags.drop_last());
            assert(self.html_below(above, n) == self.html_below(above, n - 1) + self.html_of(id));
            assert(closing_html(self.node(id).data) == "</"@ + tags.last().name() + ">"@);
            assert(self.html() =~= self.lead(id) + closers(tags));
        }
    }

    /// Closing the element at the end of the spine writes its end tag.
    pub proof fn lemma_spine_close(self, id: int, tags: Seq<Tag>)
        requires
            self.wf(),
            self.spine(id, tags),
            tags.len() > 0,
        ensures
            self.lead(self.node(id).parent->0 as int) == self.lead(id) + "</"@
                + tags.last().name() + ">"@,
    {
        assert(self.sound(id));
        let above = self.node(id).parent->0 as int;
        let n = self.node(above).children.len() as int;
        assert(self.html_below(above, n) == self.html_below(above, n - 1) + self.html_of(id));
        assert(closing_html(self.node(id).data) == "</"@ + tags.last().name() + ">"@);
        assert(self.lead(above) =~= self.lead(id) + "</"@ + tags.last().name() + ">"@);
    }

    /// What is under a node is under the parent of that node.
    pub proof fn lemma_under_step(self, id: int, child: int)
        requires
            self.wf(),
            self.live(child),
            child != 0,
            self.under(id, child),
        ensures
            self.under(id, self.node(child).parent->0 as int),
    {
        assert(self.sound(child));
        let above = self.node(child).parent->0 as int;
        assert(self.under(above, above));
        assert(self.under(child, above));
        self.lemma_under_parent(id, child, above);
    }

    /// Inserting a node leaves the text of the first `k` children of a node
    /// as it was, where the insertion is under none of them.
    pub proof fn lemma_inserted_html_below(
        self,
        parent: NodeId,
        data: Option<Payload>,
        id: int,
        k: int,
    )
        requires
            self.wf(),
            self.live(parent as int),
            self.nodes.len() < usize::MAX,
            self.live(id),
            0 <= k <= self.node(id).children.len(),
            forall|m: int| 0 <= m < k ==> !self.under(
                parent as int,
                #[trigger] self.node(id).children[m] as int,
            ),
        ensures
            self.inserted(parent, data).html_below(id, k) == self.html_below(id, k),
        decreases self.nodes.len() - id, k,
    {
        if k > 0 {
            let child = self.node(id).children[k - 1];
            let after = self.inserted(parent, data);
            assert(self.sound(id));
            assert(self.linked(id, child));
            assert(self.sound(child as int));
            assert(after.node(id).children[k - 1] == child);
            self.lemma_inserted_html_below(parent, data, id, k - 1);
            self.lemma_inserted_html_of(parent, data, child as int);
        }
    }

    /// Inserting a node leaves the text of a node as it was, where the
    /// insertion is not under it.
    pub proof fn lemma_inserted_html_of(self, parent: NodeId, data: Option<Payload>, id: int)
        requires
            self.wf(),
            self.live(parent as int),
            self.nodes.len() < usize::MAX,
            self.live(id),
            !self.under(parent as int, id),
        ensures
            self.inserted(parent, data).html_of(id) == self.html_of(id),
        decreases self.nodes.len() - id, self.node(id).children.len() + 1,
    {
        let after = self.inserted(parent, data);
        let n = self.node(id).children.len() as int;
        assert(self.under(parent as int, parent as int));
        assert(after.node(id) == self.node(id));
        assert forall|m: int| 0 <= m < n implies !self.under(
            parent as int,
            #[trigger] self.node(id).children[m] as int,
        ) by {
            let child = self.node(id).children[m];
            assert(self.sound(id));
            assert(self.linked(id, child));
            if self.under(parent as int, child as int) {
                self.lemma_under_step(parent as int, child as int);
            }
        }
        self.lemma_inserted_html_below(parent, data, id, n);
    }

    /// Inserting a node under the end of the spine, or under a node below
    /// it, leaves what is written before a node of the spine as it was.
    pub proof fn lemma_inserted_stem(
        self,
        parent: NodeId,
        data: Option<Payload>,
        id: int,
        tags: Seq<Tag>,
    )
        requires
            self.wf(),
            self.live(parent as int),
            self.nodes.len() < usize::MAX,
            self.spine(id, tags),
            self.under(parent as int, id),
        ensures
            self.inserted(parent, data).stem(id) == self.stem(id),
            self.inserted(parent, data).spine(id, tags),
        decreases tags.len(),
    {
        let after = self.inserted(parent, data);
        if tags.len() > 0 {
            assert(self.sound(id));
            let above = self.node(id).parent->0 as int;
            let n = self.node(above).children.len() as int;
            assert(self.sound(above));
            self.lemma_under_step(parent as int, id);
            self.lemma_under_order(parent as int, id);
            self.lemma_inserted_stem(parent, data, above, tags.drop_last());
            assert(after.node(above) == self.node(above));
            assert forall|m: int| 0 <= m < n - 1 implies !self.under(
                parent as int,
                #[trigger] self.node(above).children[m] as int,
            ) by {
                let other = self.node(above).children[m];
                assert(self.linked(above, other));
                assert(self.sound(other as int));
                if self.under(parent as int, other as int) {
                    assert(other < id);
                    self.lemma_under_chain(parent as int, other as int, id);
                    assert(self.under(above, other as int));
                    self.lemma_under_order(above, other as int);
                }
            }
            self.lemma_inserted_html_below(parent, data, above, n - 1);
            if id == parent {
                assert(after.node(id).data == self.node(id).data);
            } else {
                assert(after.node(id) == self.node(id));
            }
        }
    }

    /// Inserting a node under the end of the spine writes the new node at
    /// the end of what was written so far.
    pub proof fn lemma_inserted_lead(self, parent: NodeId, data: Option<Payload>, tags: Seq<Tag>)
        requires
            self.wf(),
            self.nodes.len() < usize::MAX,
            self.spine(parent as int, tags),
        ensures
            self.inserted(parent, data).wf(),
            self.inserted(parent, data).spine(parent as int, tags),
            self.inserted(parent, data).lead(parent as int) == self.lead(parent as int)
                + opening_html(data) + closing_html(data),
            self.inserted(parent, data).lead(self.nodes.len() as int) == self.lead(parent as int)
                + opening_html(data),
    {
        let after = self.inserted(parent, data);
        let fresh = self.nodes.len() as int;
        let n = self.node(parent as int).children.len() as int;
        self.lemma_spine_live(parent as int, tags);
        self.lemma_inserted_wf(parent, data);
        assert(self.under(parent as int, parent as int));
        self.lemma_inserted_stem(parent, data, parent as int, tags);
        assert forall|m: int| 0 <= m < n implies !self.under(
            parent as int,
            #[trigger] self.node(parent as int).children[m] as int,
        ) by {
            let child = self.node(parent as int).children[m];
            assert(self.sound(parent as int));
            assert(self.linked(parent as int, child));
            assert(self.sound(child as int));
            if self.under(parent as int, child as int) {
                self.lemma_under_order(parent as int, child as int);
            }
        }
        self.lemma_inserted_html_below(parent, data, parent as int, n);
        assert(after.node(parent as int).children.len() == n + 1);
        assert(after.node(parent as int).children[n] == fresh);
        assert(after.html_below(fresh, 0) =~= Seq::<char>::empty());
        assert(after.html_of(fresh) =~= opening_html(data) + closing_html(data));
        assert(after.html_below(parent as int, n + 1) == after.html_below(parent as int, n)
            + after.html_of(fresh));
        assert(after.lead(parent as int) =~= self.lead(parent as int) + opening_html(data)
            + closing_html(data));
        assert(after.stem(fresh) == after.stem(parent as int) + opening_html(
            after.node(parent as int).data,
        ) + after.html_below(parent as int, n));
        assert(after.lead(fresh) =~= self.lead(parent as int) + opening_html(data));
    }
}

/// A tree that is built from well-nested events is well-formed, has met
/// no error, and has its cursor at the end of a spine of the open elements,
/// up to where the events are written as they came.
pub proof fn lemma_built_spine(events: Seq<Event>)
    requires
        well_nested(events),
        events.len() < usize::MAX,
    ensures
        ({
            let built = DomView::empty().built(events);
            &&& built.wf()
            &&& built.error is None
            &&& built.tree.nodes.len() <= events.len() + 1
            &&& built.tree.spine(built.anchor() as int, open_tags(events))
            &&& built.tree.lead(built.anchor() as int) == events_html(events)
        }),
    decreases events.len(),
{
    let built = DomView::empty().built(events);
    if events.len() == 0 {
        let tree = Tree::empty();
        assert(tree.sound(0));
        assert(tree.wf());
        assert(tree.html_below(0, 0) =~= Seq::<char>::empty());
        assert(tree.lead(0) =~= Seq::<char>::empty());
    } else {
        let before = DomView::empty().built(events.drop_last());
        let tags = open_tags(events.drop_last());
        let at = before.anchor();
        lemma_built_spine(events.drop_last());
        before.tree.lemma_spine_live(at as int, tags);
        match events.last() {
            Event::StartTag(tag, attributes) => {
                let data = Some(Payload::Element(ElementView { tag, attributes }));
                before.tree.lemma_inserted_lead(at, data, tags);
                let fresh = before.tree.nodes.len() as int;
                assert(built.tree.node(at as int).children.last() == fresh);
                assert(open_tags(events).drop_last() =~= tags);
                assert(built.tree.spine(fresh, open_tags(events)));
            },
            Event::EndTag(tag) => {
                before.tree.lemma_spine_close(at as int, tags);
                assert(before.tree.sound(at as int));
            },
            Event::Data(bytes) => {
                let data = Some(Payload::Data(vstd::utf8::decode_utf8(bytes)));
                before.tree.lemma_inserted_lead(at, data, tags);
                assert(built.tree.lead(at as int) =~= events_html(events));
            },
        }
    }
}

/// What is written out of a tree that was built from well-nested events is
/// the events as they came, every element with its attributes in their order
/// and every text in its place, and then the end tags of the elements that
/// were left open, the innermost first.
pub proof fn lemma_built_html(events: Seq<Event>)
    requires
        well_nested(events),
        events.len() < usize::MAX,
    ensures
        DomView::empty().built(events).tree.html() == events_html(events) + closers(
            open_tags(events),
        ),
{
    let built = DomView::empty().built(events);
    lemma_built_spine(events);
    built.tree.lemma_spine_html(built.anchor() as int, open_tags(events));
}

/// What is written out of a tree that was built from a document whose
/// events are well-nested is the elements and the text of the document in
/// their order, and then the end tags that the document left out.
pub proof fn lemma_document_html(source: Seq<u8>)
    requires
        well_nested(Machine::run(source).events),
        Machine::run(source).events.len() < usize::MAX,
    ensures
        DomView::empty().built(Machine::run(source).events).tree.html() == events_html(
            Machine::run(source).events,
        ) + closers(open_tags(Machine::run(source).events)),
{
    lemma_built_html(Machine::run(source).events);
}

} // verus!
