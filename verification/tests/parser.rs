use domx::{Attribute, Error, IsParser, Parser, Tag};

struct TestTag {
    tag: Tag,
    attributes: Vec<Attribute>,
}

struct Dummy {
    starttag: Vec<TestTag>,
    endtag: Vec<TestTag>,
    data: Vec<Vec<u8>>,
}

impl Dummy {
    pub fn new() -> Dummy {
        Dummy {
            starttag: Vec::new(),
            endtag: Vec::new(),
            data: Vec::new(),
        }
    }
}

impl IsParser for Dummy {
    fn handle_starttag(self: &mut Self, tag: &Tag, attributes: &Vec<Attribute>) {
        self.starttag.push(TestTag {
            tag: tag.clone(),
            attributes: attributes.clone(),
        });
    }

    fn handle_endtag(self: &mut Self, tag: &Tag) {
        self.endtag.push(TestTag { tag: tag.clone(), attributes: Vec::new() });
    }

    fn handle_data(self: &mut Self, data: &Vec<u8>) {
        self.data.push(data.clone());
    }
}

#[test]
fn parser_parse_empty_document() {
    let mut p = Dummy::new();
    let data = b"";
    assert_eq!(Parser::parse(&data[..], &mut p).unwrap(), 0);
}

#[test]
fn parser_parse_simple_document() {
    let mut p = Dummy::new();
    let data = b"<html><head><title>Simple Example</title></head><body><h1>A simple doc</h1><p class=\"para\">This is a simple html document, as short and simple it can get.</p></body></html>";
    assert_eq!(Parser::parse(&data[..], &mut p).unwrap(), 172);
    assert_eq!(p.starttag.len(), 6);
    assert_eq!(p.endtag.len(), 6);
    assert_eq!(p.data.len(), 3);
    assert_eq!(p.starttag[5].attributes.len(), 1);
    assert_eq!(p.starttag[0].tag, Tag::HTML);
    assert_eq!(p.starttag[1].tag, Tag::HEAD);
    assert_eq!(p.starttag[2].tag, Tag::TITLE);
    assert_eq!(p.starttag[3].tag, Tag::BODY);
    assert_eq!(p.starttag[4].tag, Tag::H1);
    assert_eq!(p.starttag[5].tag, Tag::P);
}

#[test]
fn parse_document_with_inline_comment() {
    let mut p = Dummy::new();
    let data = b"<html><head><title>Simple<!-- title --> Example</title></head><body><h1>A simple doc</h1><p class=\"para\">This is a simple html document, as short and simple it can get.</p></body></html>";
    assert_eq!(Parser::parse(&data[..], &mut p).unwrap(), 186);
    assert_eq!(p.starttag.len(), 6);
    assert_eq!(p.endtag.len(), 6);
    assert_eq!(p.data.len(), 4);
    assert_eq!(p.starttag[5].attributes.len(), 1);
    assert_eq!(String::from_utf8(p.data[0].clone()).unwrap(), "Simple");
    assert_eq!(String::from_utf8(p.data[1].clone()).unwrap(), " Example");
}

#[test]
fn parse_document_with_comment() {
    let mut p = Dummy::new();
    let data = b"<html><head> <!-- set a title --> <title>Simple Example</title></head><body><h1>A simple doc</h1><p class=\"para\">This is a simple html document, as short and simple it can get.</p></body></html>";
    assert_eq!(Parser::parse(&data[..], &mut p).unwrap(), 194);
    assert_eq!(p.starttag.len(), 6);
    assert_eq!(p.endtag.len(), 6);
    assert_eq!(p.data.len(), 5);
    assert_eq!(p.starttag[5].attributes.len(), 1);
}

#[test]
fn parse_tag_with_utf8_data() {
    let mut p = Dummy::new();
    let data = "<p>\u{1F496}</p>".to_string().into_bytes();
    assert_eq!(Parser::parse(&data[..], &mut p).unwrap(), 11);
    assert_eq!(String::from_utf8(p.data[0].clone()).unwrap(), "\u{1F496}");

    let mut p = Dummy::new();
    let data = "<p>ðŸ’–</p>".to_string().into_bytes();
    assert_eq!(Parser::parse(&data[..], &mut p).unwrap(), data.len());
    assert_eq!(String::from_utf8(p.data[0].clone()).unwrap(), "ðŸ’–");
}

#[test]
fn parse_attribute_with_utf8_value() {
    let mut p = Dummy::new();
    let data = "<p id='\u{1F496}'>Sparkle heart</p>".to_string().into_bytes();
    assert_eq!(Parser::parse(&data[..], &mut p).unwrap(), 30);
    assert_eq!(String::from_utf8(p.data[0].clone()).unwrap(), "Sparkle heart");
    assert_eq!(p.starttag[0].attributes[0].name(), "id");
    assert_eq!(p.starttag[0].attributes[0].value(), "\u{1F496}");

    let mut p = Dummy::new();
    let data = "<p id='ðŸ’–'>Sparkle heart</p>".to_string().into_bytes();
    assert_eq!(Parser::parse(&data[..], &mut p).unwrap(), data.len());
    assert_eq!(p.starttag[0].attributes[0].value(), "ðŸ’–");
}

#[test]
fn parse_tag_with_one_attribute_without_qouted_value() {
    let mut p = Dummy::new();
    let data = b"<p id=1>Hello world</p>";
    assert_eq!(Parser::parse(&data[..], &mut p).unwrap(), 23);
    assert_eq!(p.starttag[0].attributes[0].name(), "id");
    assert_eq!(p.starttag[0].attributes[0].value(), "1");
}

#[test]
fn parse_tag_with_one_attribute_with_doubleqouted_value() {
    let mut p = Dummy::new();
    let data = b"<p id=\"1\">Hello world</p>";
    assert_eq!(Parser::parse(&data[..], &mut p).unwrap(), 25);
    assert_eq!(p.starttag[0].attributes[0].name(), "id");
    assert_eq!(p.starttag[0].attributes[0].value(), "1");
}

#[test]
fn parse_tag_with_one_attribute_with_singleqouted_value() {
    let mut p = Dummy::new();
    let data = b"<p id='1'>Hello world</p>";
    assert_eq!(Parser::parse(&data[..], &mut p).unwrap(), 25);
    assert_eq!(p.starttag[0].attributes[0].name(), "id");
    assert_eq!(p.starttag[0].attributes[0].value(), "1");
}

#[test]
fn parse_tag_with_one_attribute_doubleqouted_with_space_in_value() {
    let mut p = Dummy::new();
    let data = b"<p class=\"info error\">Hello world</p>";
    assert_eq!(Parser::parse(&data[..], &mut p).unwrap(), 37);
    assert_eq!(p.starttag[0].attributes[0].name(), "class");
    assert_eq!(p.starttag[0].attributes[0].value(), "info error");
}

#[test]
fn parse_tag_with_one_attribute_singlequoted_with_space_in_value() {
    let mut p = Dummy::new();
    let data = b"<p class='info error'>Hello world</p>";
    assert_eq!(Parser::parse(&data[..], &mut p).unwrap(), 37);
    assert_eq!(p.starttag[0].attributes[0].name(), "class");
    assert_eq!(p.starttag[0].attributes[0].value(), "info error");
}

#[test]
fn parse_tag_with_one_attribute_with_space_ending_value() {
    let mut p = Dummy::new();
    let data = b"<p id=test class=info>Hello world</p>";
    assert_eq!(Parser::parse(&data[..], &mut p).unwrap(), 37);
    assert_eq!(p.starttag[0].attributes[0].name(), "id");
    assert_eq!(p.starttag[0].attributes[0].value(), "test");
    assert_eq!(p.starttag[0].attributes[1].name(), "class");
    assert_eq!(p.starttag[0].attributes[1].value(), "info");
}

#[test]
fn parse_tag_with_one_attribute_with_space_ending_value2() {
    let mut p = Dummy::new();
    let data = b"<p id=test >Hello world</p>";
    assert_eq!(Parser::parse(&data[..], &mut p).unwrap(), 27);
    assert_eq!(p.starttag[0].attributes[0].name(), "id");
    assert_eq!(p.starttag[0].attributes[0].value(), "test");
}

#[test]
fn parse_tag_with_two_attribute() {
    let mut p = Dummy::new();
    let data = b"<p id=\"myid\" class='info'>Hello world</p>";
    assert_eq!(Parser::parse(&data[..], &mut p).unwrap(), 41);
    assert_eq!(p.starttag[0].attributes[0].name(), "id");
    assert_eq!(p.starttag[0].attributes[0].value(), "myid");
    assert_eq!(p.starttag[0].attributes[1].name(), "class");
    assert_eq!(p.starttag[0].attributes[1].value(), "info");
}

#[test]
fn parse_tag_with_two_attribute_separated_with_lf() {
    let mut p = Dummy::new();
    let data = b"<p id=\"myid\" \n\t class='info'>Hello world</p>";
    assert_eq!(Parser::parse(&data[..], &mut p).unwrap(), 44);
    assert_eq!(p.starttag[0].attributes[0].name(), "id");
    assert_eq!(p.starttag[0].attributes[0].value(), "myid");
    assert_eq!(p.starttag[0].attributes[1].name(), "class");
    assert_eq!(p.starttag[0].attributes[1].value(), "info");
}

#[test]
fn parse_tag_with_one_boolean_attribute() {
    let mut p = Dummy::new();
    let data = b"<option selected>Hello world</option>";
    assert_eq!(Parser::parse(&data[..], &mut p).unwrap(), 37);
    assert_eq!(p.starttag[0].attributes[0].name(), "selected");
    assert_eq!(p.starttag[0].attributes[0].is_boolean(), true);
}

#[test]
fn parse_tag_with_one_boolean_attribute_with_space_ending() {
    let mut p = Dummy::new();
    let data = b"<option selected >Hello world</option>";
    assert_eq!(Parser::parse(&data[..], &mut p).unwrap(), 38);
    assert_eq!(p.starttag[0].attributes[0].name(), "selected");
    assert_eq!(p.starttag[0].attributes[0].is_boolean(), true);
}

#[test]
fn parse_tag_with_two_attribute_were_first_is_boolean_attribute() {
    let mut p = Dummy::new();
    let data = b"<option selected id=\"myid\">Hello world</option>";
    assert_eq!(Parser::parse(&data[..], &mut p).unwrap(), 47);
    assert_eq!(p.starttag[0].attributes[0].name(), "selected");
    assert_eq!(p.starttag[0].attributes[0].is_boolean(), true);
    assert_eq!(p.starttag[0].attributes[1].name(), "id");
    assert_eq!(p.starttag[0].attributes[1].value(), "myid");
}

#[test]
fn unknown_tag_is_an_error() {
    let mut p = Dummy::new();
    let data = b"<p>hi</p><foo>bar</foo>";
    let e = Parser::parse(&data[..], &mut p).unwrap_err();
    assert_eq!(e.error, Error::UnknownTag);
    assert_eq!(e.consumed, 9);
    assert_eq!(p.starttag.len(), 1);
    assert_eq!(p.endtag.len(), 1);
}
