use domx::{Attribute, Error, IsParser, Parser, Tag};

#[derive(Debug, PartialEq)]
enum Seen {
    Start(Tag, Vec<(String, String)>),
    End(Tag),
    Data(String),
}

struct Collect {
    seen: Vec<Seen>,
}

impl IsParser for Collect {
    fn handle_starttag(&mut self, tag: &Tag, attributes: &Vec<Attribute>) {
        let pairs = attributes
            .iter()
            .map(|a| {
                (
                    String::from_utf8_lossy(&a.name).into_owned(),
                    String::from_utf8_lossy(&a.value).into_owned(),
                )
            })
            .collect();
        self.seen.push(Seen::Start(*tag, pairs));
    }

    fn handle_endtag(&mut self, tag: &Tag) {
        self.seen.push(Seen::End(*tag));
    }

    fn handle_data(&mut self, data: &Vec<u8>) {
        self.seen.push(Seen::Data(String::from_utf8_lossy(data).into_owned()));
    }
}

struct First(Option<Attribute>);

impl IsParser for First {
    fn handle_starttag(&mut self, _tag: &Tag, attributes: &Vec<Attribute>) {
        assert_eq!(attributes.len(), 1);
        self.0 = Some(attributes[0].clone());
    }

    fn handle_endtag(&mut self, _tag: &Tag) {}

    fn handle_data(&mut self, _data: &Vec<u8>) {}
}

fn tokens(source: &[u8]) -> (Result<usize, domx::ParseError>, Vec<Seen>) {
    let mut c = Collect { seen: Vec::new() };
    let r = Parser::parse(source, &mut c);
    (r, c.seen)
}

fn start(tag: Tag, attributes: &[(&str, &str)]) -> Seen {
    Seen::Start(tag, attributes.iter().map(|(n, v)| (n.to_string(), v.to_string())).collect())
}

fn data(text: &str) -> Seen {
    Seen::Data(text.to_string())
}

fn streamed(source: &[u8], piece: usize) -> (Result<usize, domx::ParseError>, Vec<Seen>) {
    let mut c = Collect { seen: Vec::new() };
    let mut parser = Parser::new();
    let mut fed = 0;
    loop {
        if parser.wants_input() {
            let n = piece.min(source.len() - fed);
            parser.supply(&source[fed..fed + n]);
            fed += n;
        }
        if let Err(e) = parser.advance(&mut c) {
            return (Err(e), c.seen);
        }
        if parser.is_exhausted() {
            break;
        }
    }
    (Ok(parser.consumed()), c.seen)
}

#[test]
fn end_to_end_events_come_in_document_order() {
    let (r, seen) = tokens(b"<html><body><p>Hello <b>World</b>!</p></body></html>");
    assert_eq!(r, Ok(52));
    assert_eq!(
        seen,
        vec![
            start(Tag::HTML, &[]),
            start(Tag::BODY, &[]),
            start(Tag::P, &[]),
            data("Hello "),
            start(Tag::B, &[]),
            data("World"),
            Seen::End(Tag::B),
            data("!"),
            Seen::End(Tag::P),
            Seen::End(Tag::BODY),
            Seen::End(Tag::HTML),
        ]
    );
}

#[test]
fn comment_between_text_gives_two_runs_of_text() {
    let (r, seen) = tokens(b"<title>Simple<!-- title --> Example</title>");
    assert_eq!(r, Ok(43));
    assert_eq!(
        seen,
        vec![start(Tag::TITLE, &[]), data("Simple"), data(" Example"), Seen::End(Tag::TITLE)]
    );
}

#[test]
fn comment_may_hold_markup_and_dashes() {
    let (r, seen) = tokens(b"<p><!-- <b>no</b> -- > - -->yes</p>");
    assert_eq!(r, Ok(35));
    assert_eq!(seen, vec![start(Tag::P, &[]), data("yes"), Seen::End(Tag::P)]);
}

#[test]
fn raw_text_keeps_angle_brackets() {
    let (r, seen) = tokens(b"<script>if (a<b) {}</script>");
    assert_eq!(r, Ok(28));
    assert_eq!(
        seen,
        vec![start(Tag::SCRIPT, &[]), data("if (a<b) {}"), Seen::End(Tag::SCRIPT)]
    );
}

#[test]
fn raw_text_ends_at_the_exact_closing_tag_only() {
    let (r, seen) = tokens(b"<style>a</p></STYLE></style ></styl></style><p>x</p>");
    assert_eq!(r, Ok(52));
    assert_eq!(
        seen,
        vec![
            start(Tag::STYLE, &[]),
            data("a</p></STYLE></style ></styl>"),
            Seen::End(Tag::STYLE),
            start(Tag::P, &[]),
            data("x"),
            Seen::End(Tag::P),
        ]
    );
}

#[test]
fn empty_raw_text_gives_no_text() {
    let (r, seen) = tokens(b"<script></script>");
    assert_eq!(r, Ok(17));
    assert_eq!(seen, vec![start(Tag::SCRIPT, &[]), Seen::End(Tag::SCRIPT)]);
}

#[test]
fn raw_text_cut_short_is_dropped() {
    let (r, seen) = tokens(b"<script>var a = 1;</scr");
    assert_eq!(r, Ok(18));
    assert_eq!(seen, vec![start(Tag::SCRIPT, &[])]);
    let (r, seen) = tokens(b"<script>var a = 1;");
    assert_eq!(r, Ok(18));
    assert_eq!(seen, vec![start(Tag::SCRIPT, &[])]);
}

#[test]
fn comment_cut_short_is_dropped() {
    let (r, seen) = tokens(b"<p>a</p><!-- never closed");
    assert_eq!(r, Ok(23));
    assert_eq!(seen, vec![start(Tag::P, &[]), data("a"), Seen::End(Tag::P)]);
    let (r, seen) = tokens(b"<!");
    assert_eq!(r, Ok(1));
    assert_eq!(seen, vec![]);
    let (r, seen) = tokens(b"<!-");
    assert_eq!(r, Ok(2));
    assert_eq!(seen, vec![]);
}

#[test]
fn text_without_a_following_tag_is_dropped() {
    let (r, seen) = tokens(b"<p>tail");
    assert_eq!(r, Ok(7));
    assert_eq!(seen, vec![start(Tag::P, &[])]);
    let (r, seen) = tokens(b"no markup at all");
    assert_eq!(r, Ok(16));
    assert_eq!(seen, vec![]);
}

#[test]
fn text_before_the_first_tag_is_passed_over() {
    let (r, seen) = tokens(b"lead<p>x</p>");
    assert_eq!(r, Ok(12));
    assert_eq!(seen, vec![start(Tag::P, &[]), data("x"), Seen::End(Tag::P)]);
}

#[test]
fn declarations_are_passed_over() {
    let (r, seen) = tokens(b"<!DOCTYPE html>\n<html>x</html>");
    assert_eq!(r, Ok(30));
    assert_eq!(seen, vec![start(Tag::HTML, &[]), data("x"), Seen::End(Tag::HTML)]);
}

#[test]
fn tag_names_are_read_without_regard_to_case() {
    let (r, seen) = tokens(b"<HTML><Body>x</BODY></html>");
    assert_eq!(r, Ok(27));
    assert_eq!(
        seen,
        vec![
            start(Tag::HTML, &[]),
            start(Tag::BODY, &[]),
            data("x"),
            Seen::End(Tag::BODY),
            Seen::End(Tag::HTML),
        ]
    );
}

#[test]
fn line_breaks_in_a_tag_name_are_passed_over() {
    let (r, seen) = tokens(b"<\r\np>x<\n/p>");
    assert_eq!(r, Ok(11));
    assert_eq!(seen, vec![start(Tag::P, &[]), data("x"), Seen::End(Tag::P)]);
}

#[test]
fn slash_in_a_tag_name_marks_an_end_tag() {
    let (r, seen) = tokens(b"<p>a<br/>b</p>");
    assert_eq!(r, Ok(14));
    assert_eq!(
        seen,
        vec![start(Tag::P, &[]), data("a"), Seen::End(Tag::BR), data("b"), Seen::End(Tag::P)]
    );
}

#[test]
fn slash_after_attributes_ends_the_tag() {
    let (r, seen) = tokens(b"<img src=a.png />x<p>");
    assert_eq!(r, Ok(21));
    assert_eq!(
        seen,
        vec![start(Tag::IMG, &[("src", "a.png")]), data(">x"), start(Tag::P, &[])]
    );
}

#[test]
fn boolean_attribute_has_no_value() {
    let (_, seen) = tokens(b"<option selected>");
    assert_eq!(seen, vec![start(Tag::OPTION, &[("selected", "")])]);
    let mut first = First(None);
    Parser::parse(b"<option selected>", &mut first).unwrap();
    let a = first.0.unwrap();
    assert_eq!(a.name(), "selected");
    assert!(a.is_boolean());
    let mut c = Collect { seen: Vec::new() };
    Parser::parse(b"", &mut c).unwrap();
    assert!(c.seen.is_empty());
}

#[test]
fn quoted_value_with_space_is_one_attribute() {
    let (_, seen) = tokens(b"<p class=\"info error\">");
    assert_eq!(seen, vec![start(Tag::P, &[("class", "info error")])]);
    let (_, seen) = tokens(b"<p class='info error' id=a  hidden\tfoo\n=bar>");
    assert_eq!(
        seen,
        vec![start(Tag::P, &[("class", "info error"), ("id", "a"), ("hiddenfoo", "bar")])]
    );
}

#[test]
fn attribute_value_quirks_are_kept() {
    let (_, seen) = tokens(b"<p a=\"\" b='x\"y' c= z d=\"q>");
    assert_eq!(
        seen,
        vec![start(Tag::P, &[("a", ""), ("b", "x"), ("y'", ""), ("c", " z"), ("d", "\"q")])]
    );
    let (_, seen) = tokens(b"<p =v>");
    assert_eq!(seen, vec![start(Tag::P, &[])]);
    let (_, seen) = tokens(b"<p a=1 a=2>");
    assert_eq!(seen, vec![start(Tag::P, &[("a", "1"), ("a", "2")])]);
}

#[test]
fn end_tag_attributes_are_not_reported() {
    let (r, seen) = tokens(b"<p>x</p class=a>");
    assert_eq!(r, Ok(16));
    assert_eq!(seen, vec![start(Tag::P, &[]), data("x"), Seen::End(Tag::P)]);
}

#[test]
fn unterminated_quote_swallows_what_follows() {
    let (r, seen) = tokens(b"<p id=\"a b c");
    assert_eq!(r, Ok(12));
    assert_eq!(seen, vec![]);
    let (r, seen) = tokens(b"<p id=\"a <b>x</b>");
    assert_eq!(r, Ok(17));
    assert_eq!(seen, vec![start(Tag::P, &[("id", "\"a <b")]), data("x"), Seen::End(Tag::B)]);
}

#[test]
fn unknown_tag_reports_the_bytes_before_it() {
    let (r, seen) = tokens(b"<p>hi</p><foo>bar</foo>");
    assert_eq!(r, Err(domx::ParseError { error: Error::UnknownTag, consumed: 9 }));
    assert_eq!(seen, vec![start(Tag::P, &[]), data("hi"), Seen::End(Tag::P)]);
    let (r, seen) = tokens(b"<nope>");
    assert_eq!(r, Err(domx::ParseError { error: Error::UnknownTag, consumed: 0 }));
    assert_eq!(seen, vec![]);
    let (r, _) = tokens(b"<p>ok</p>text<p x=1 y>more</x>");
    assert_eq!(r, Err(domx::ParseError { error: Error::UnknownTag, consumed: 26 }));
    let (r, _) = tokens(b"<>");
    assert_eq!(r, Err(domx::ParseError { error: Error::UnknownTag, consumed: 0 }));
    let (r, seen) = tokens(b"<p>x</p><nope");
    assert_eq!(r, Ok(13));
    assert_eq!(seen, vec![start(Tag::P, &[]), data("x"), Seen::End(Tag::P)]);
}

#[test]
fn long_documents_are_taken_in_pieces() {
    let mut source = Vec::new();
    let mut expected = Vec::new();
    for i in 0..700 {
        source.extend_from_slice(format!("<p id=\"n{}\">text {}<!-- c{} --></p>", i, i, i).as_bytes());
        expected.push(start(Tag::P, &[("id", &format!("n{}", i))]));
        expected.push(data(&format!("text {}", i)));
        expected.push(Seen::End(Tag::P));
    }
    source.extend_from_slice(b"<script>");
    for _ in 0..3000 {
        source.extend_from_slice(b"a<b ");
    }
    source.extend_from_slice(b"</script>");
    expected.push(start(Tag::SCRIPT, &[]));
    expected.push(data(&"a<b ".repeat(3000)));
    expected.push(Seen::End(Tag::SCRIPT));
    assert!(source.len() > 30000);
    let (r, seen) = tokens(&source);
    assert_eq!(r, Ok(source.len()));
    assert_eq!(seen, expected);
}

#[test]
fn the_outcome_does_not_depend_on_how_the_source_is_cut() {
    let documents: Vec<&[u8]> = vec![
        b"<html><body><p>Hello <b>World</b>!</p></body></html>",
        b"<title>Simple<!-- title --> Example</title>",
        b"<script>if (a<b) {}</script><style>p</p></style>",
        b"<p class=\"info error\" id='a' x=y hidden>t</p><!-- open",
        b"<!DOCTYPE html><p>a</p><foo>b",
        b"<p>\xf0\x9f\x92\x96</p><!x><br/>",
        b"<script>a</scrip",
        b"<!",
        b"",
    ];
    for source in documents {
        let whole = tokens(source);
        for piece in [1, 2, 3, 5, 7, 64, 65, 2048] {
            assert_eq!(streamed(source, piece), whole);
        }
    }
}

#[test]
fn streaming_keeps_count_of_what_it_holds() {
    let mut c = Collect { seen: Vec::new() };
    let mut parser = Parser::new();
    assert!(parser.wants_input());
    assert_eq!(parser.consumed(), 0);
    assert_eq!(parser.buffered(), 0);
    parser.supply(b"<p>a<!-");
    assert_eq!(parser.buffered(), 7);
    assert_eq!(parser.advance(&mut c), Ok(()));
    assert_eq!(parser.consumed(), 6);
    assert_eq!(parser.buffered(), 1);
    assert_eq!(c.seen, vec![start(Tag::P, &[]), data("a")]);
    assert!(parser.wants_input());
    assert!(!parser.is_exhausted());
    parser.supply(b"- x -->b</p>");
    assert_eq!(parser.advance(&mut c), Ok(()));
    assert_eq!(parser.consumed(), 19);
    assert_eq!(c.seen, vec![start(Tag::P, &[]), data("a"), data("b"), Seen::End(Tag::P)]);
    parser.supply(b"");
    assert!(parser.is_exhausted());
    assert!(!parser.wants_input());
    parser.supply(b"<b>");
    assert_eq!(parser.buffered(), 0);
    assert_eq!(parser.advance(&mut c), Ok(()));
    assert_eq!(parser.consumed(), 19);
    assert!(!parser.has_failed());
}

#[test]
fn a_failed_tokenizer_stays_failed() {
    let mut c = Collect { seen: Vec::new() };
    let mut parser = Parser::new();
    parser.supply(b"<p>a</p><zzz>b");
    let e = parser.advance(&mut c).unwrap_err();
    assert_eq!(e, domx::ParseError { error: Error::UnknownTag, consumed: 8 });
    assert!(parser.has_failed());
    assert_eq!(parser.consumed(), 8);
    assert_eq!(parser.advance(&mut c), Err(e));
    assert_eq!(c.seen.len(), 3);
}

#[test]
fn a_full_buffer_asks_for_no_input() {
    let mut parser = Parser::new();
    parser.supply(&[b'x'; 63]);
    assert!(parser.wants_input());
    parser.supply(&[b'x'; 1]);
    assert!(!parser.wants_input());
    assert_eq!(parser.buffered(), 64);
}
