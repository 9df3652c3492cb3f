use domx::{Attribute, Dom, Error, Node, NodeData, Store, Tag, ToHTML};

fn dom(html: &str) -> Dom {
    let mut temp_dom = Dom::new();
    let data = format!("{}", html).into_bytes();
    temp_dom.parse(&data[..]).unwrap();
    temp_dom
}

#[test]
fn dom_parse_empty_document() {
    let mut dom = Dom::new();
    let data = "".to_string().into_bytes();
    assert_eq!(dom.parse(&data[..]).unwrap(), 0);
}

#[test]
fn dom_parse_simple_document() {
    let dom = dom("<html><body><p>Hello <b>World</b>!</p></body></html>");
    assert_eq!(dom[3].data().to_string(), "<p>");
    assert_eq!(dom[6].data().to_string(), "World");
}

#[test]
fn node_new_element_to_html() {
    let el = "p".parse::<Tag>().unwrap();
    let attrs = vec![Attribute::new("id", "myid"), Attribute::new("class", "info data")];
    let node = Node::new_element(el, attrs);
    assert_eq!(node.element().unwrap().to_html(), "<p id=\"myid\" class=\"info data\">");
}

#[test]
fn dom_retain_all() {
    let mut dom = dom("<html><body><p>Hello <b>World</b>!</p></body></html>");
    dom.retain(|_| true);

    assert_eq!(dom.len(), 7);
}

#[test]
fn dom_retain_none() {
    let mut dom = dom("<html><body><p>Hello <b>World</b>!</p></body></html>");
    println!("{}", dom.to_string().unwrap());
    dom.retain(|_| false);

    assert_eq!(dom.len(), 0);
}

#[test]
fn dom_retain_all_but_p() {
    let mut dom = dom("<html><body><p>Hello <b>World</b>!</p></body></html>");
    println!("{}", dom.to_string().unwrap());
    dom.retain(|&ref node| match node.element() {
        None => true,
        Some(x) => match x.tag() {
            &Tag::P => false,
            _ => true,
        },
    });

    assert_eq!(dom.len(), 2);
}

#[test]
fn empty_document_gives_empty_tree() {
    let mut dom = Dom::new();
    assert_eq!(dom.parse(b"").unwrap(), 0);
    assert_eq!(dom.len(), 0);
    assert_eq!(dom.to_html(), "");
}

#[test]
fn end_to_end_tree_has_seven_nodes() {
    let dom = dom("<html><body><p>Hello <b>World</b>!</p></body></html>");
    assert_eq!(dom.len(), 7);
    let mut seen = Vec::new();
    dom.recurse(|id, level| seen.push((id, level)));
    assert_eq!(seen, vec![(1, 0), (2, 1), (3, 2), (4, 3), (5, 3), (6, 4), (7, 3)]);
    assert_eq!(dom[1].element().unwrap().tag(), &Tag::HTML);
    assert_eq!(dom[2].element().unwrap().tag(), &Tag::BODY);
    assert_eq!(dom[3].element().unwrap().tag(), &Tag::P);
    assert_eq!(dom[4].data().to_string(), "Hello ");
    assert_eq!(dom[5].element().unwrap().tag(), &Tag::B);
    assert_eq!(dom[6].data().to_string(), "World");
    assert_eq!(dom[7].data().to_string(), "!");
    assert_eq!(dom[6].parent(), Some(5));
    assert_eq!(dom[3].children(), &vec![4, 5, 7]);
    assert!(dom[4].is_data());
    assert!(!dom[4].is_element());
    assert!(dom[5].is_element());
}

#[test]
fn serialize_reproduces_well_formed_document() {
    let html = "<html><body><p class=\"a b\" hidden>Hello <b>World</b>!</p></body></html>";
    let dom = dom(html);
    assert_eq!(dom.to_html(), html);
    assert_eq!(dom.serialize().unwrap(), html);
}

#[test]
fn serialize_normalises_quotes_and_closes_open_elements() {
    let open = dom_of(b"<html><body><p id='x' class=y>Hello <b>World");
    assert_eq!(open.to_html(), "<html><body><p id=\"x\" class=\"y\">Hello <b></b></p></body></html>");
    let dom = dom_of(b"<div><p>one<p>two</div>");
    assert_eq!(dom.to_html(), "<div><p>one<p>two</p></p></div>");
}

fn dom_of(bytes: &[u8]) -> Dom {
    let mut dom = Dom::new();
    dom.parse(bytes).unwrap();
    dom
}

#[test]
fn extraneous_end_tags_pop_one_level_and_stop_at_the_root() {
    let dom = dom_of(b"</p></p><b>x</b></i><i>y</i>");
    assert_eq!(dom.to_html(), "<b>x</b><i>y</i>");
    let dom = dom_of(b"<div><p>a</b>b</p>c</div>");
    assert_eq!(dom.to_html(), "<div><p>a</p>b</div>c");
}

#[test]
fn text_that_is_not_utf8_stops_the_build() {
    let mut dom = Dom::new();
    let e = dom.parse(b"<p>ok</p><p>\xff</p><b>late</b>").unwrap_err();
    assert_eq!(e.error, Error::InvalidUtf8);
    assert_eq!(e.consumed, 28);
    assert_eq!(dom.len(), 3);
    assert_eq!(dom.to_html(), "<p>ok</p><p></p>");
}

#[test]
fn unknown_tag_stops_the_build_and_keeps_what_was_built() {
    let mut dom = Dom::new();
    let e = dom.parse(b"<p>hi</p><foo>bar</foo>").unwrap_err();
    assert_eq!(e.error, Error::UnknownTag);
    assert_eq!(e.consumed, 9);
    assert_eq!(dom.len(), 2);
    assert_eq!(dom.to_html(), "<p>hi</p>");
}

#[test]
fn attribute_that_is_not_utf8_cannot_be_serialized() {
    let dom = dom_of(b"<p id=\xff>x</p>");
    assert_eq!(dom.len(), 2);
    assert_eq!(dom.serialize().unwrap_err(), Error::InvalidUtf8);
    assert_eq!(dom.to_string().unwrap_err(), Error::InvalidUtf8);
}

#[test]
fn get_tells_live_nodes_from_others() {
    let mut dom = dom("<p>a</p><b>c</b>");
    assert!(dom.is_node(0));
    assert!(dom.is_node(4));
    assert!(!dom.is_node(5));
    assert_eq!(dom.get(5).err(), Some(Error::NodeNotFound));
    dom.retain(|node| match node.element() {
        Some(x) => *x.tag() != Tag::P,
        None => true,
    });
    assert_eq!(dom.get(1).err(), Some(Error::NodeNotFound));
    assert_eq!(dom.get(2).err(), Some(Error::NodeNotFound));
    assert_eq!(dom.get(3).unwrap().id(), 3);
    assert_eq!(dom.len(), 2);
    assert_eq!(dom.to_html(), "<b>c</b>");
}

#[test]
fn retain_asks_every_node_once_in_document_order() {
    let mut dom = dom("<html><body><p>Hello <b>World</b>!</p></body></html>");
    let mut asked = Vec::new();
    dom.retain(|node| {
        asked.push(node.id());
        node.id() != 3
    });
    assert_eq!(asked, vec![1, 2, 3, 4, 5, 6, 7]);
    assert_eq!(dom.len(), 2);
    assert_eq!(dom.to_html(), "<html><body></body></html>");
}

#[test]
fn removal_under_a_rejected_ancestor_wins() {
    let mut dom = dom("<div><p>a</p></div><p>b</p>");
    dom.retain(|node| match node.element() {
        Some(x) => *x.tag() != Tag::DIV,
        None => true,
    });
    assert_eq!(dom.to_html(), "<p>b</p>");
    assert_eq!(dom.len(), 2);
}

#[test]
fn parsing_goes_on_under_the_cursor_and_retain_resets_a_lost_cursor() {
    let mut dom = Dom::new();
    dom.parse(b"<div><p>a").unwrap();
    dom.parse(b"b</p>").unwrap();
    assert_eq!(dom.to_html(), "<div><p></p></div>");
    dom.parse(b"<b>c</b>").unwrap();
    assert_eq!(dom.to_html(), "<div><p></p><b>c</b></div>");
    dom.retain(|node| match node.element() {
        Some(x) => *x.tag() != Tag::DIV,
        None => true,
    });
    assert_eq!(dom.len(), 0);
    dom.parse(b"<i>d</i>").unwrap();
    assert_eq!(dom.to_html(), "<i>d</i>");
    assert_eq!(dom.get(5).unwrap().parent(), Some(0));
    assert_eq!(dom.get(6).unwrap().parent(), Some(5));
}

#[test]
fn outline_lists_nodes_with_depth_and_id() {
    let dom = dom("<p id=\"x\">a \"b\"\n</p><b>12</b>");
    assert_eq!(
        dom.to_string().unwrap(),
        "node(1) element: <p id=\"x\">\n  node(2) data: \"a \\\"b\\\"\\n\"\nnode(3) element: <b>\n  node(4) data: \"12\"\n"
    );
    let mut many = String::new();
    for _ in 0..12 {
        many.push_str("<i>x</i>");
    }
    let long = dom_of(many.as_bytes());
    assert!(long.to_string().unwrap().ends_with("node(23) element: <i>\n  node(24) data: \"x\"\n"));
}

#[test]
fn store_starts_with_the_root_alone() {
    let store = Store::new();
    assert_eq!(store.len(), 1);
    assert!(store.is_node(0));
    assert!(!store.is_node(1));
    assert_eq!(store.preorder(0), vec![]);
    assert_eq!(store.to_html(), "");
    assert_eq!(store.get(0).unwrap().parent(), None);
}

#[test]
fn store_inserts_under_live_parents_only() {
    let mut store = Store::new();
    assert_eq!(store.new_node_with_parent(0), Ok(1));
    assert_eq!(store.new_node_with_parent(1), Ok(2));
    assert_eq!(store.new_node_with_parent(7), Err(Error::InvalidParent));
    assert_eq!(store.len(), 3);
    store.remove(1);
    assert_eq!(store.new_node_with_parent(1), Err(Error::InvalidParent));
    assert_eq!(store.new_node_with_parent(2), Err(Error::InvalidParent));
    assert_eq!(store.len(), 1);
    assert_eq!(store.add(Node::new_data("x".to_string())), Err(Error::InvalidParent));
    assert_eq!(store.len(), 1);
}

#[test]
fn ids_are_not_given_out_again() {
    let mut store = Store::new();
    assert_eq!(store.new_node_with_parent(0), Ok(1));
    assert_eq!(store.new_node_with_parent(0), Ok(2));
    assert_eq!(store.new_node_with_parent(2), Ok(3));
    store.remove(2);
    assert!(!store.is_node(2));
    assert!(!store.is_node(3));
    assert_eq!(store.new_node_with_parent(0), Ok(4));
    store.remove(4);
    store.remove(1);
    assert_eq!(store.len(), 1);
    assert_eq!(store.new_node_with_parent(0), Ok(5));
    assert_eq!(store.get(0).unwrap().children(), &vec![5]);
}

#[test]
fn removing_a_node_removes_what_hangs_under_it() {
    let mut store = Store::new();
    for parent in [0, 1, 1, 2, 4, 0, 6] {
        store.new_node_with_parent(parent).unwrap();
    }
    assert_eq!(store.len(), 8);
    assert_eq!(
        store.preorder(0),
        vec![(1, 0), (2, 1), (4, 2), (5, 3), (3, 1), (6, 0), (7, 1)]
    );
    assert_eq!(store.preorder(1), vec![(2, 0), (4, 1), (5, 2), (3, 0)]);
    assert_eq!(store.preorder(9), vec![]);
    store.remove(2);
    assert_eq!(store.len(), 5);
    assert_eq!(store.preorder(0), vec![(1, 0), (3, 1), (6, 0), (7, 1)]);
    assert_eq!(store.get(1).unwrap().children(), &vec![3]);
    store.remove(2);
    assert_eq!(store.len(), 5);
    store.remove(17);
    assert_eq!(store.len(), 5);
    store.remove(0);
    assert_eq!(store.len(), 5);
    store.remove(7);
    assert_eq!(store.len(), 4);
    store.remove(1);
    assert_eq!(store.len(), 2);
    assert_eq!(store.preorder(0), vec![(6, 0)]);
}

#[test]
fn prune_removes_each_listed_node() {
    let mut store = Store::new();
    for parent in [0, 1, 1, 2, 0] {
        store.new_node_with_parent(parent).unwrap();
    }
    store.prune(&vec![4, 2, 4, 9, 0, 5]);
    assert_eq!(store.len(), 3);
    assert_eq!(store.preorder(0), vec![(1, 0), (3, 1)]);
}

#[test]
fn store_retain_all_and_none() {
    let mut store = Store::new();
    for parent in [0, 1, 1, 2, 0] {
        store.new_node_with_parent(parent).unwrap();
    }
    store.retain(|_| true);
    assert_eq!(store.len(), 6);
    let mut visits = Vec::new();
    store.recurse(1, |id, depth| visits.push((id, depth)));
    assert_eq!(visits, vec![(2, 0), (4, 1), (3, 0)]);
    store.retain(|_| false);
    assert_eq!(store.len(), 1);
    assert_eq!(store.get(0).unwrap().children(), &Vec::<usize>::new());
}

#[test]
fn payloads_render_as_html() {
    let node = Node::new_data("a < b".to_string());
    assert!(node.is_data());
    assert!(node.element().is_none());
    assert_eq!(node.data().to_html(), "a < b");
    let node = Node::new_element(Tag::OPTION, vec![Attribute::new_boolean("selected")]);
    assert_eq!(node.data().to_string(), "<option selected>");
    assert_eq!(node.element().unwrap().attributes().len(), 1);
    match node.data() {
        NodeData::Element(x) => assert_eq!(x.to_html(), "<option selected>"),
        NodeData::Data(_) => panic!("an element was made"),
    }
    let node = Node::new_element(Tag::BR, Vec::new());
    assert_eq!(node.data().to_html(), "<br>");
    let bad = Attribute { name: vec![0xc3], value: Vec::new() };
    let node = Node::new_element(Tag::P, vec![bad]);
    assert!(node.element().unwrap().render().is_none());
    assert!(node.data().render().is_none());
}

#[test]
fn build_gives_the_tree_or_the_error() {
    let dom = Dom::build(b"<p>a</p>").unwrap();
    assert_eq!(dom.len(), 2);
    assert_eq!(dom.error(), None);
    assert_eq!(dom.to_html(), "<p>a</p>");
    let e = Dom::build(b"<p>a</p><q><zz>").err().unwrap();
    assert_eq!(e.error, Error::UnknownTag);
    assert_eq!(e.consumed, 11);
    let e = Dom::build(b"<p>\xc3</p>").err().unwrap();
    assert_eq!(e.error, Error::InvalidUtf8);
    assert_eq!(e.consumed, 8);
}
