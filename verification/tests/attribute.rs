use domx::{Attribute, Error, Tag, ToHTML};

#[test]
fn new_boolean_is_boolean() {
    let a = Attribute::new_boolean("selected");
    assert_eq!(a.is_boolean(), true);
}

#[test]
fn new_is_not_boolean() {
    let a = Attribute::new("class", "info");
    assert_eq!(a.is_boolean(), false);
}

#[test]
fn new_with_utf8_value() {
    let a = Attribute::new("id", "ðŸ’–");
    assert_eq!(a.value(), "ðŸ’–");
}

#[test]
fn attribute_to_html() {
    let a = Attribute::new("id", "ðŸ’–");
    assert_eq!(a.to_html(), "id=\"ðŸ’–\"");
}

#[test]
fn boolean_attribute_renders_as_its_name() {
    let a = Attribute::new_boolean("selected");
    assert_eq!(a.to_html(), "selected");
    assert_eq!(a.name(), "selected");
    assert_eq!(a.value(), "");
    assert_eq!(a.name, b"selected".to_vec());
}

#[test]
fn empty_value_counts_as_boolean() {
    let a = Attribute::new("hidden", "");
    assert!(a.is_boolean());
    assert_eq!(a.to_html(), "hidden");
}

#[test]
fn attribute_bytes_are_decoded_as_utf8() {
    let a = Attribute { name: vec![0x69, 0x64], value: vec![0xf0, 0x9f, 0x92, 0x96] };
    assert_eq!(a.name(), "id");
    assert_eq!(a.value(), "\u{1F496}");
    assert_eq!(a.value().chars().count(), 1);
    assert_eq!(a.to_html(), "id=\"\u{1F496}\"");
    assert_eq!(a.render(), Some("id=\"\u{1F496}\"".to_string()));
}

#[test]
fn attribute_bytes_that_are_not_utf8_are_refused() {
    let a = Attribute { name: vec![0x69, 0x64], value: vec![0xf0, 0x9f] };
    assert_eq!(a.name_checked(), Some("id".to_string()));
    assert_eq!(a.value_checked(), None);
    assert_eq!(a.render(), None);
    let b = Attribute { name: vec![0xff], value: Vec::new() };
    assert_eq!(b.name_checked(), None);
    assert_eq!(b.render(), None);
}

#[test]
fn attribute_clone_keeps_name_and_value() {
    let a = Attribute::new("class", "info");
    let b = a.clone();
    assert_eq!(b.name, a.name);
    assert_eq!(b.value, a.value);
}

#[test]
fn tag_names_resolve_without_regard_to_case() {
    assert_eq!(Tag::from_name(b"html"), Some(Tag::HTML));
    assert_eq!(Tag::from_name(b"HTML"), Some(Tag::HTML));
    assert_eq!(Tag::from_name(b"BlockQuote"), Some(Tag::BLOCKQUOTE));
    assert_eq!(Tag::from_name(b"a"), Some(Tag::A));
    assert_eq!(Tag::from_name(b"wbr"), Some(Tag::WBR));
    assert_eq!(Tag::from_name(b"h7"), None);
    assert_eq!(Tag::from_name(b""), None);
    assert_eq!(Tag::from_name(b"htm"), None);
    assert_eq!(Tag::from_name(b"htmlx"), None);
    assert_eq!(Tag::from_name(b"p "), None);
    assert_eq!(Tag::from_name(&[0xc0]), None);
    assert_eq!("div".parse::<Tag>(), Ok(Tag::DIV));
    assert_eq!("nope".parse::<Tag>(), Err(Error::UnknownTag));
}

#[test]
fn tag_names_are_lower_case() {
    assert_eq!(Tag::SCRIPT.to_string(), "script");
    assert_eq!(Tag::H1.as_str(), "h1");
    assert!(Tag::SCRIPT.holds_raw_text());
    assert!(Tag::STYLE.holds_raw_text());
    assert!(!Tag::P.holds_raw_text());
    assert_eq!(Tag::from_index(0), Tag::A);
    assert_eq!(Tag::from_index(111), Tag::WBR);
    assert_eq!(Tag::from_index(5000), Tag::WBR);
    for i in 0..112 {
        let tag = Tag::from_index(i);
        assert_eq!(Tag::from_name(tag.as_str().as_bytes()), Some(tag));
        assert_eq!(Tag::from_name(tag.as_str().to_uppercase().as_bytes()), Some(tag));
    }
}
