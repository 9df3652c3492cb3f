use vstd::prelude::*;
use crate::attribute::Attribute;
use crate::error::{Error, ParseError};
use crate::machine::{
    Event, Machine, Pending, State, Step, BANG, CARRIAGE_RETURN, CHUNK, DASH, DOUBLE_QUOTE,
    EQUALS, GT, LINE_FEED, LOW_WATER, LT, SINGLE_QUOTE, SLASH, SPACE, TAB,
};
use crate::tag::Tag;

verus! {

/// An observer of the tokenizer: it is told of every start tag, end tag and
/// run of text, in the order of the document.
pub trait IsParser: Sized {
    /// How the observer may look after an event, given how it looked before.
    /// An observer that states nothing of itself leaves this as it is.
    open spec fn reacts(before: Self, event: Event, after: Self) -> bool {
        true
    }

    /// What the observer needs to hold of itself between events. An observer
    /// that needs nothing leaves this as it is.
    open spec fn valid(&self) -> bool {
        true
    }

    /// Called for a start tag, with the attributes that it carries.
    fn handle_starttag(&mut self, tag: &Tag, attributes: &Vec<Attribute>)
        requires
            old(self).valid(),
        ensures
            final(self).valid(),
            Self::reacts(*old(self), Event::StartTag(*tag, attributes.deep_view()), *final(self)),
    ;

    /// Called for an end tag.
    fn handle_endtag(&mut self, tag: &Tag)
        requires
            old(self).valid(),
        ensures
            final(self).valid(),
            Self::reacts(*old(self), Event::EndTag(*tag), *final(self)),
    ;

    /// Called for a run of text: character data between tags, and the
    /// content of a raw-text element.
    fn handle_data(&mut self, data: &Vec<u8>)
        requires
            old(self).valid(),
        ensures
            final(self).valid(),
            Self::reacts(*old(self), Event::Data(data@), *final(self)),
    ;
}

/// The observer has been told of `events`, one after the other, and nothing else.
pub open spec fn delivered<H: IsParser>(before: H, events: Seq<Event>, after: H) -> bool
    decreases events.len(),
{
    if events.len() == 0 {
        before == after
    } else {
        exists|between: H|
            delivered(before, events.drop_last(), between) && H::reacts(
                between,
                events.last(),
                after,
            )
    }
}

/// Telling an observer of one more event extends what it has been told of.
pub proof fn lemma_delivered_push<H: IsParser>(
    before: H,
    events: Seq<Event>,
    between: H,
    event: Event,
    after: H,
)
    requires
        delivered(before, events, between),
        H::reacts(between, event, after),
    ensures
        delivered(before, events.push(event), after),
{
    let all = events.push(event);
    assert(all.drop_last() =~= events);
    assert(delivered(before, all.drop_last(), between) && H::reacts(between, all.last(), after));
}

/// The tag and the text that are being put together.
struct ParserTag {
    name: Vec<u8>,
    id: Option<Tag>,
    closing: bool,
    data: Vec<u8>,
    attributes: Vec<Attribute>,
}

impl View for ParserTag {
    type V = Pending;

    closed spec fn view(&self) -> Pending {
        Pending {
            name: self.name@,
            id: self.id,
            closing: self.closing,
            data: self.data@,
            attributes: self.attributes.deep_view(),
        }
    }
}

/// Tests whether a byte is a double or a single quote.
fn is_quote_byte(b: u8) -> (r: bool)
    ensures
        r == crate::machine::is_quote(b),
{
    b == DOUBLE_QUOTE || b == SINGLE_QUOTE
}

/// An attribute of which nothing has been read yet.
fn empty_attribute() -> (r: Attribute)
    ensures
        r@ == crate::machine::placeholder(),
{
    Attribute { name: Vec::new(), value: Vec::new() }
}

/// Takes the quote that opens a value and the quote that closes it away.
fn trim_quotes(value: &mut Vec<u8>)
    ensures
        final(value)@ == crate::machine::strip_quotes(old(value)@),
{
    if value.len() != 0 && is_quote_byte(value[0]) {
        value.remove(0);
        assert(value@ =~= old(value)@.drop_first());
    }
    let n = value.len();
    if n != 0 && is_quote_byte(value[n - 1]) {
        value.pop();
    }
}

/// Resolves the name of the tag that is complete and reports the tag.
fn finish_tag<H: IsParser>(tag: &mut ParserTag, state: &mut State, handler: &mut H) -> (r: Result<
    (),
    Error,
>)
    requires
        old(handler).valid(),
    ensures
        final(handler).valid(),
        match (Machine { state: *old(state), tag: old(tag)@ }).finish() {
            Step::Go { used, next, emit } => {
                &&& r is Ok
                &&& Machine { state: *final(state), tag: final(tag)@ } == next
                &&& emit is Some
                &&& H::reacts(*old(handler), emit->0, *final(handler))
            },
            _ => {
                &&& r == Err::<(), Error>(Error::UnknownTag)
                &&& *final(state) == *old(state)
                &&& *final(tag) == *old(tag)
                &&& *final(handler) == *old(handler)
            },
        },
{
    let id = match Tag::from_name(tag.name.as_slice()) {
        Some(id) => id,
        None => {
            return Err(Error::UnknownTag);
        },
    };
    let n = tag.attributes.len();
    if n > 0 && tag.attributes[n - 1].name.len() == 0 {
        tag.attributes.pop();
    }
    assert(tag.attributes.deep_view() =~= old(tag)@.settled());
    tag.id = Some(id);
    if tag.closing {
        handler.handle_endtag(&id);
        *state = State::ReadData;
    } else {
        handler.handle_starttag(&id, &tag.attributes);
        *state = if id.holds_raw_text() {
            State::ReadRawData
        } else {
            State::ReadData
        };
    }
    tag.attributes.clear();
    assert(tag.attributes.deep_view() =~= Seq::<crate::attribute::AttributeView>::empty());
    Ok(())
}

/// Adds a byte to the name of the attribute that is being read.
fn push_name_byte(tag: &mut ParserTag, b: u8)
    requires
        old(tag)@.attributes.len() > 0,
    ensures
        final(tag)@ == old(tag)@.with_current(
            crate::attribute::AttributeView {
                name: old(tag)@.current().name.push(b),
                ..old(tag)@.current()
            },
        ),
{
    let mut current = tag.attributes.pop().unwrap();
    current.name.push(b);
    tag.attributes.push(current);
    assert(tag@.attributes =~= old(tag)@.with_current(
        crate::attribute::AttributeView {
            name: old(tag)@.current().name.push(b),
            ..old(tag)@.current()
        },
    ).attributes);
}

/// Adds a byte to the value of the attribute that is being read.
fn push_value_byte(tag: &mut ParserTag, b: u8)
    requires
        old(tag)@.attributes.len() > 0,
    ensures
        final(tag)@ == old(tag)@.with_current(
            crate::attribute::AttributeView {
                value: old(tag)@.current().value.push(b),
                ..old(tag)@.current()
            },
        ),
{
    let mut current = tag.attributes.pop().unwrap();
    current.value.push(b);
    tag.attributes.push(current);
    assert(tag@.attributes =~= old(tag)@.with_current(
        crate::attribute::AttributeView {
            value: old(tag)@.current().value.push(b),
            ..old(tag)@.current()
        },
    ).attributes);
}

/// Ends the attribute that is being read, without the quotes round its value
/// where `quoted` says so, and begins the next one.
fn close_attribute(tag: &mut ParserTag, quoted: bool)
    requires
        old(tag)@.attributes.len() > 0,
    ensures
        final(tag)@ == (Pending {
            attributes: old(tag)@.with_current(
                if quoted {
                    crate::attribute::AttributeView {
                        value: crate::machine::strip_quotes(old(tag)@.current().value),
                        ..old(tag)@.current()
                    }
                } else {
                    old(tag)@.current()
                },
            ).attributes.push(crate::machine::placeholder()),
            ..old(tag)@
        }),
{
    if quoted {
        let mut current = tag.attributes.pop().unwrap();
        trim_quotes(&mut current.value);
        tag.attributes.push(current);
    }
    tag.attributes.push(empty_attribute());
    assert(tag@.attributes =~= old(tag)@.with_current(
        if quoted {
            crate::attribute::AttributeView {
                value: crate::machine::strip_quotes(old(tag)@.current().value),
                ..old(tag)@.current()
            }
        } else {
            old(tag)@.current()
        },
    ).attributes.push(crate::machine::placeholder()));
}

/// What a state handler owes: it has done what its state makes of the
/// buffer, told the observer of the events in their order, and says how many
/// bytes it consumed, or that the tag is unknown.
spec fn scanned<H: IsParser>(
    before: Machine,
    buf: Seq<u8>,
    observer: H,
    r: Result<usize, Error>,
    after: Machine,
    observer_after: H,
) -> bool {
    let s = before.scan(buf);
    &&& after == s.machine
    &&& observer_after.valid()
    &&& delivered(observer, s.events, observer_after)
    &&& s.used <= buf.len()
    &&& if s.failed {
        r == Err::<usize, Error>(Error::UnknownTag)
    } else {
        r == Ok::<usize, Error>(s.used as usize)
    }
    &&& after.wf()
}

/// Tells the observer of the accumulated text, if there is any.
fn report_text<H: IsParser>(tag: &ParserTag, handler: &mut H)
    requires
        old(handler).valid(),
    ensures
        final(handler).valid(),
        match tag@.text() {
            Some(event) => H::reacts(*old(handler), event, *final(handler)),
            None => *final(handler) == *old(handler),
        },
{
    if tag.data.len() > 0 {
        handler.handle_data(&tag.data);
    }
}

/// Telling an observer of some events and then of some more is telling it of all of them.
pub proof fn lemma_delivered_concat<H: IsParser>(
    before: H,
    first: Seq<Event>,
    between: H,
    second: Seq<Event>,
    after: H,
)
    requires
        delivered(before, first, between),
        delivered(between, second, after),
    ensures
        delivered(before, first + second, after),
    decreases second.len(),
{
    if second.len() == 0 {
        assert(first + second =~= first);
    } else {
        let last_but_one = choose|h: H|
            delivered(between, second.drop_last(), h) && H::reacts(h, second.last(), after);
        lemma_delivered_concat(before, first, between, second.drop_last(), last_but_one);
        lemma_delivered_push(
            before,
            first + second.drop_last(),
            last_but_one,
            second.last(),
            after,
        );
        assert((first + second.drop_last()).push(second.last()) =~= first + second);
    }
}

/// Takes the first `n` bytes out of a buffer.
fn drop_front(buf: &mut Vec<u8>, n: usize)
    requires
        n <= old(buf)@.len(),
    ensures
        final(buf)@ == old(buf)@.skip(n as int),
{
    let rest = buf.split_off(n);
    *buf = rest;
}

/// A tokenizer as its user sees it.
pub struct ParserView {
    /// The state of the tokenizer and what it has accumulated.
    pub machine: Machine,
    /// All the bytes that were supplied, from the first on.
    pub supplied: Seq<u8>,
    /// How many of them have been consumed.
    pub consumed: nat,
    /// Where the tag that was last begun starts.
    pub mark: nat,
    /// Whether the end of the source was announced.
    pub exhausted: bool,
    /// Whether an unknown tag has ended the parse.
    pub failed: bool,
}

/// A streaming HTML tokenizer.
///
/// Its user supplies the document piece by piece and lets the tokenizer
/// advance after each; `parse` does both for a document held in memory.
pub struct Parser {
    state: State,
    tag: ParserTag,
    buf: Vec<u8>,
    end_of_file: bool,
    total_parsed: usize,
    tag_start: usize,
    failed: bool,
    supplied: Ghost<Seq<u8>>,
}

impl View for Parser {
    type V = ParserView;

    closed spec fn view(&self) -> ParserView {
        ParserView {
            machine: Machine { state: self.state, tag: self.tag@ },
            supplied: self.supplied@,
            consumed: self.total_parsed as nat,
            mark: self.tag_start as nat,
            exhausted: self.end_of_file,
            failed: self.failed,
        }
    }
}

impl ParserView {
    /// The bytes that were supplied and not yet consumed.
    pub open spec fn buffered(self) -> Seq<u8> {
        self.supplied.skip(self.consumed as int)
    }

    /// More input is asked for while the source has not ended and fewer bytes
    /// than the low-water mark are held.
    pub open spec fn wants_input(self) -> bool {
        !self.exhausted && self.buffered().len() < LOW_WATER
    }

    /// What the tokenizer makes of the bytes it holds.
    pub open spec fn outcome(self) -> crate::machine::Run {
        self.machine.run_from(self.supplied, self.consumed as int, Seq::empty(), self.mark)
    }
}

impl Parser {
    /// Passes over bytes up to the next tag.
    fn state_find_tag(buf: &Vec<u8>, tag: &mut ParserTag, state: &mut State) -> (processed: usize)
        requires
            *old(state) == State::FindTag,
        ensures
            ({
                let s = (Machine { state: *old(state), tag: old(tag)@ }).scan(buf@);
                &&& (Machine { state: *final(state), tag: final(tag)@ }) == s.machine
                &&& s.events == Seq::<Event>::empty()
                &&& !s.failed
                &&& processed == s.used
                &&& processed <= buf.len()
                &&& s.machine.wf()
            }),
    {
        let ghost goal = (Machine { state: *state, tag: tag@ }).scan(buf@);
        let mut processed: usize = 0;
        while processed < buf.len() && *state == State::FindTag
            invariant
                processed <= buf.len(),
                goal == (Machine { state: *old(state), tag: old(tag)@ }).scan(buf@),
                (Machine { state: *state, tag: tag@ }).wf(),
                goal == (Machine { state: *state, tag: tag@ }).scan_from(
                    State::FindTag,
                    buf@,
                    processed as int,
                    Seq::empty(),
                ),
            decreases buf.len() - processed + (if *state == State::FindTag {
                    1int
                } else {
                    0int
                }),
        {
            let ghost here = Machine { state: *state, tag: tag@ };
            let ghost at = processed;
            assert(Seq::<Event>::empty() =~= Seq::<Event>::empty() + crate::machine::emitted(None));
            if buf[processed] == LT {
                tag.name.clear();
                tag.id = None;
                tag.data.clear();
                tag.closing = false;
                *state = State::ReadTagName;
            } else {
                processed += 1;
            }
            proof {
                let step = here.step(buf@, at as int);
                assert(step is Go);
                assert(step->next == (Machine { state: *state, tag: tag@ }));
            }
        }
        processed
    }

    /// Passes over a comment up to and including the `-->` that ends it.
    fn state_skip_comment(buf: &Vec<u8>, state: &mut State) -> (processed: usize)
        requires
            *old(state) == State::SkipComment,
        ensures
            forall|tag: Pending|
                {
                    let s = #[trigger] (Machine { state: *old(state), tag }).scan(buf@);
                    &&& (Machine { state: *final(state), tag }) == s.machine
                    &&& s.events == Seq::<Event>::empty()
                    &&& !s.failed
                    &&& processed == s.used
                },
            processed <= buf.len(),
            *final(state) == State::SkipComment || *final(state) == State::ReadData,
    {
        let mut processed: usize = 0;
        while *state == State::SkipComment
            invariant
                processed <= buf.len(),
                *state == State::SkipComment || *state == State::ReadData,
                forall|tag: Pending|
                    #[trigger] (Machine { state: *old(state), tag }).scan(buf@) == (Machine {
                        state: *state,
                        tag,
                    }).scan_from(State::SkipComment, buf@, processed as int, Seq::empty()),
            decreases buf.len() - processed + (if *state == State::SkipComment {
                    1int
                } else {
                    0int
                }),
        {
            if buf.len() - processed < 3 {
                return processed;
            }
            assert(Seq::<Event>::empty() =~= Seq::<Event>::empty() + crate::machine::emitted(None));
            if buf[processed] == DASH && buf[processed + 1] == DASH && buf[processed + 2] == GT {
                *state = State::ReadData;
                processed += 3;
            } else {
                processed += 1;
            }
        }
        processed
    }

    /// Reads the name of a tag.
    fn state_read_tag_name(buf: &Vec<u8>, tag: &mut ParserTag, state: &mut State) -> (processed:
        usize)
        requires
            *old(state) == State::ReadTagName,
        ensures
            ({
                let s = (Machine { state: *old(state), tag: old(tag)@ }).scan(buf@);
                &&& (Machine { state: *final(state), tag: final(tag)@ }) == s.machine
                &&& s.events == Seq::<Event>::empty()
                &&& !s.failed
                &&& processed == s.used
                &&& processed <= buf.len()
                &&& s.machine.wf()
            }),
    {
        let ghost goal = (Machine { state: *state, tag: tag@ }).scan(buf@);
        let mut processed: usize = 0;
        while processed < buf.len() && *state == State::ReadTagName
            invariant
                processed <= buf.len(),
                goal == (Machine { state: *old(state), tag: old(tag)@ }).scan(buf@),
                (Machine { state: *state, tag: tag@ }).wf(),
                goal == (Machine { state: *state, tag: tag@ }).scan_from(
                    State::ReadTagName,
                    buf@,
                    processed as int,
                    Seq::empty(),
                ),
            decreases buf.len() - processed + (if *state == State::ReadTagName {
                    1int
                } else {
                    0int
                }),
        {
            let b = buf[processed];
            let ghost here = Machine { state: *state, tag: tag@ };
            let ghost at = processed;
            assert(Seq::<Event>::empty() =~= Seq::<Event>::empty() + crate::machine::emitted(None));
            if b == LT || b == CARRIAGE_RETURN || b == LINE_FEED {
                processed += 1;
            } else if b == BANG {
                if buf.len() - processed < 2 {
                    return processed;
                }
                *state = if buf[processed + 1] == DASH {
                    State::SkipComment
                } else {
                    State::FindTag
                };
                processed += 1;
            } else if b == SLASH {
                tag.closing = true;
                processed += 1;
            } else if b == GT || b == SPACE {
                tag.attributes.clear();
                tag.attributes.push(empty_attribute());
                *state = State::ReadAttributeName;
                assert(tag@.attributes =~= seq![crate::machine::placeholder()]);
            } else {
                tag.name.push(b);
                processed += 1;
            }
            proof {
                let step = here.step(buf@, at as int);
                assert(step is Go);
                assert(step->next == (Machine { state: *state, tag: tag@ }));
            }
        }
        processed
    }

    /// Tests whether the closing tag of a raw-text element stands at `at`;
    /// `None` where the buffer ends before that can be told.
    fn at_closing_tag(buf: &Vec<u8>, at: usize, id: &Tag) -> (r: Option<bool>)
        requires
            at <= buf.len(),
        ensures
            ({
                let token = crate::machine::closing_token(*id);
                match r {
                    None => at + token.len() > buf.len(),
                    Some(found) => at + token.len() <= buf.len() && found == (buf@.subrange(
                        at as int,
                        at + token.len(),
                    ) == token),
                }
            }),
    {
        let name = id.as_str().as_bytes();
        let n = name.len();
        let room = buf.len() - at;
        if room < 3 || room - 3 < n {
            return None;
        }
        let ghost token = crate::machine::closing_token(*id);
        let ghost window = buf@.subrange(at as int, at + token.len());
        if buf[at] != LT || buf[at + 1] != SLASH || buf[at + 2 + n] != GT {
            assert(window[0] == buf@[at as int]);
            assert(window[1] == buf@[at + 1]);
            assert(window[2 + n] == buf@[at + 2 + n]);
            return Some(false);
        }
        let mut k: usize = 0;
        while k < n
            invariant
                k <= n,
                n == name@.len(),
                name@ == id.name_bytes(),
                at + n + 3 <= buf.len(),
                token == crate::machine::closing_token(*id),
                window == buf@.subrange(at as int, at + token.len()),
                buf@[at as int] == LT,
                buf@[at + 1] == SLASH,
                buf@[at + 2 + n] == GT,
                forall|j: int| 0 <= j < k ==> buf@[at + 2 + j] == name@[j],
            decreases n - k,
        {
            if buf[at + 2 + k] != name[k] {
                assert(window[2 + k] == buf@[at + 2 + k]);
                assert(token[2 + k] == name@[k as int]);
                return Some(false);
            }
            k += 1;
        }
        assert(window =~= token);
        Some(true)
    }

    /// Reads text up to the next tag.
    fn state_read_data<H: IsParser>(
        buf: &Vec<u8>,
        tag: &mut ParserTag,
        state: &mut State,
        handler: &mut H,
    ) -> (r: Result<usize, Error>)
        requires
            old(handler).valid(),
            *old(state) == State::ReadData,
        ensures
            scanned(
                Machine { state: *old(state), tag: old(tag)@ },
                buf@,
                *old(handler),
                r,
                Machine { state: *final(state), tag: final(tag)@ },
                *final(handler),
            ),
            r is Ok,
    {
        let ghost goal = (Machine { state: *state, tag: tag@ }).scan(buf@);
        let ghost mut events: Seq<Event> = Seq::empty();
        let mut processed: usize = 0;
        while processed < buf.len() && *state == State::ReadData
            invariant
                processed <= buf.len(),
                goal == (Machine { state: *old(state), tag: old(tag)@ }).scan(buf@),
                (Machine { state: *state, tag: tag@ }).wf(),
                goal == (Machine { state: *state, tag: tag@ }).scan_from(
                    State::ReadData,
                    buf@,
                    processed as int,
                    events,
                ),
                delivered(*old(handler), events, *handler),
                handler.valid(),
            decreases buf.len() - processed + (if *state == State::ReadData {
                    1int
                } else {
                    0int
                }),
        {
            let b = buf[processed];
            let ghost here = Machine { state: *state, tag: tag@ };
            let ghost at = processed;
            let ghost seen = *handler;
            let ghost old_events = events;
            if b == LT {
                report_text(tag, handler);
                *state = State::FindTag;
                proof {
                    if let Some(event) = here.tag.text() {
                        lemma_delivered_push(*old(handler), events, seen, event, *handler);
                        events = events.push(event);
                    }
                }
            } else {
                tag.data.push(b);
                processed += 1;
            }
            proof {
                let step = here.step(buf@, at as int);
                assert(step is Go);
                assert(step->next == (Machine { state: *state, tag: tag@ }));
                assert(events =~= old_events + crate::machine::emitted(step->emit));
            }
        }
        Ok(processed)
    }

    /// Reads the content of a raw-text element up to its closing tag.
    fn state_read_raw_data<H: IsParser>(
        buf: &Vec<u8>,
        tag: &mut ParserTag,
        state: &mut State,
        handler: &mut H,
    ) -> (r: Result<usize, Error>)
        requires
            old(handler).valid(),
            *old(state) == State::ReadRawData,
            old(tag)@.id is Some,
            old(tag)@.id->0.is_raw_text(),
        ensures
            scanned(
                Machine { state: *old(state), tag: old(tag)@ },
                buf@,
                *old(handler),
                r,
                Machine { state: *final(state), tag: final(tag)@ },
                *final(handler),
            ),
            r is Ok,
    {
        let ghost goal = (Machine { state: *state, tag: tag@ }).scan(buf@);
        let ghost mut events: Seq<Event> = Seq::empty();
        let mut processed: usize = 0;
        while processed < buf.len() && *state == State::ReadRawData
            invariant
                processed <= buf.len(),
                goal == (Machine { state: *old(state), tag: old(tag)@ }).scan(buf@),
                tag@.id is Some,
                (Machine { state: *state, tag: tag@ }).wf(),
                goal == (Machine { state: *state, tag: tag@ }).scan_from(
                    State::ReadRawData,
                    buf@,
                    processed as int,
                    events,
                ),
                delivered(*old(handler), events, *handler),
                handler.valid(),
            decreases buf.len() - processed + (if *state == State::ReadRawData {
                    1int
                } else {
                    0int
                }),
        {
            let b = buf[processed];
            let ghost here = Machine { state: *state, tag: tag@ };
            let ghost at = processed;
            let ghost seen = *handler;
            let ghost old_events = events;
            if b == LT {
                let id = tag.id.unwrap();
                match Parser::at_closing_tag(buf, processed, &id) {
                    None => {
                        return Ok(processed);
                    },
                    Some(true) => {
                        report_text(tag, handler);
                        *state = State::FindTag;
                        proof {
                            if let Some(event) = here.tag.text() {
                                lemma_delivered_push(*old(handler), events, seen, event, *handler);
                                events = events.push(event);
                            }
                        }
                    },
                    Some(false) => {
                        tag.data.push(b);
                        processed += 1;
                    },
                }
            } else {
                tag.data.push(b);
                processed += 1;
            }
            proof {
                let step = here.step(buf@, at as int);
                assert(step is Go);
                assert(step->next == (Machine { state: *state, tag: tag@ }));
                assert(events =~= old_events + crate::machine::emitted(step->emit));
            }
        }
        Ok(processed)
    }

    /// Reads the value of an attribute.
    fn state_read_attribute_value<H: IsParser>(
        buf: &Vec<u8>,
        tag: &mut ParserTag,
        state: &mut State,
        handler: &mut H,
    ) -> (r: Result<usize, Error>)
        requires
            old(handler).valid(),
            *old(state) == State::ReadAttributeValue,
            old(tag)@.attributes.len() > 0,
        ensures
            scanned(
                Machine { state: *old(state), tag: old(tag)@ },
                buf@,
                *old(handler),
                r,
                Machine { state: *final(state), tag: final(tag)@ },
                *final(handler),
            ),
    {
        let ghost goal = (Machine { state: *state, tag: tag@ }).scan(buf@);
        let ghost mut events: Seq<Event> = Seq::empty();
        let mut processed: usize = 0;
        while processed < buf.len() && *state == State::ReadAttributeValue
            invariant
                processed <= buf.len(),
                goal == (Machine { state: *old(state), tag: old(tag)@ }).scan(buf@),
                *state == State::ReadAttributeValue ==> tag@.attributes.len() > 0,
                (Machine { state: *state, tag: tag@ }).wf(),
                goal == (Machine { state: *state, tag: tag@ }).scan_from(
                    State::ReadAttributeValue,
                    buf@,
                    processed as int,
                    events,
                ),
                delivered(*old(handler), events, *handler),
                handler.valid(),
            decreases buf.len() - processed,
        {
            let b = buf[processed];
            let ghost here = Machine { state: *state, tag: tag@ };
            let ghost seen = *handler;
            let ghost old_events = events;
            if b == GT {
                match finish_tag(tag, state, handler) {
                    Err(e) => {
                        return Err(e);
                    },
                    Ok(_) => {
                        proof {
                            let emit = here.finish()->emit;
                            lemma_delivered_push(*old(handler), events, seen, emit->0, *handler);
                            events = events.push(emit->0);
                        }
                    },
                }
            } else if is_quote_byte(b) {
                if tag.attributes[tag.attributes.len() - 1].value.len() > 0 {
                    close_attribute(tag, true);
                    *state = State::ReadAttributeName;
                } else {
                    push_value_byte(tag, b);
                }
            } else if b == SPACE {
                let n = tag.attributes.len();
                if tag.attributes[n - 1].value.len() > 0 && !is_quote_byte(
                    tag.attributes[n - 1].value[0],
                ) {
                    close_attribute(tag, false);
                    *state = State::ReadAttributeName;
                } else {
                    push_value_byte(tag, b);
                }
            } else {
                push_value_byte(tag, b);
            }
            processed += 1;
            proof {
                let step = here.step(buf@, processed - 1);
                assert(step is Go);
                assert(step->used == 1);
                assert(step->next == (Machine { state: *state, tag: tag@ }));
                assert(events =~= old_events + crate::machine::emitted(step->emit));
            }
        }
        Ok(processed)
    }

    /// Reads the name of an attribute.
    fn state_read_attribute_name<H: IsParser>(
        buf: &Vec<u8>,
        tag: &mut ParserTag,
        state: &mut State,
        handler: &mut H,
    ) -> (r: Result<usize, Error>)
        requires
            old(handler).valid(),
            *old(state) == State::ReadAttributeName,
            old(tag)@.attributes.len() > 0,
        ensures
            scanned(
                Machine { state: *old(state), tag: old(tag)@ },
                buf@,
                *old(handler),
                r,
                Machine { state: *final(state), tag: final(tag)@ },
                *final(handler),
            ),
    {
        let ghost goal = (Machine { state: *state, tag: tag@ }).scan(buf@);
        let ghost mut events: Seq<Event> = Seq::empty();
        let mut processed: usize = 0;
        while processed < buf.len() && *state == State::ReadAttributeName
            invariant
                processed <= buf.len(),
                goal == (Machine { state: *old(state), tag: old(tag)@ }).scan(buf@),
                (Machine { state: *state, tag: tag@ }).wf(),
                goal == (Machine { state: *state, tag: tag@ }).scan_from(
                    State::ReadAttributeName,
                    buf@,
                    processed as int,
                    events,
                ),
                delivered(*old(handler), events, *handler),
                handler.valid(),
            decreases buf.len() - processed,
        {
            let b = buf[processed];
            let ghost here = Machine { state: *state, tag: tag@ };
            let ghost seen = *handler;
            let ghost old_events = events;
            if b == GT || b == SLASH {
                match finish_tag(tag, state, handler) {
                    Err(e) => {
                        return Err(e);
                    },
                    Ok(_) => {
                        proof {
                            let emit = here.finish()->emit;
                            lemma_delivered_push(*old(handler), events, seen, emit->0, *handler);
                            events = events.push(emit->0);
                        }
                    },
                }
            } else if b == EQUALS {
                *state = State::ReadAttributeValue;
            } else if b == SPACE {
                if tag.attributes[tag.attributes.len() - 1].name.len() > 0 {
                    close_attribute(tag, false);
                }
            } else if b == LINE_FEED || b == CARRIAGE_RETURN || b == TAB {
            } else {
                push_name_byte(tag, b);
            }
            processed += 1;
            proof {
                let step = here.step(buf@, processed - 1);
                assert(step is Go);
                assert(step->used == 1);
                assert(step->next == (Machine { state: *state, tag: tag@ }));
                assert(events =~= old_events + crate::machine::emitted(step->emit));
            }
        }
        Ok(processed)
    }
}

impl Parser {
    /// The buffer holds what was supplied and not consumed, and the machine is well-formed.
    pub closed spec fn wf(&self) -> bool {
        &&& self.tag_start <= self.total_parsed <= self.supplied@.len() <= usize::MAX
        &&& !self.failed ==> self.buf@ == self.supplied@.skip(self.total_parsed as int)
        &&& (Machine { state: self.state, tag: self.tag@ }).wf()
    }

    /// What well-formedness says of the tokenizer as its user sees it.
    pub proof fn lemma_wf(&self)
        requires
            self.wf(),
        ensures
            self@.mark <= self@.consumed <= self@.supplied.len() <= usize::MAX,
            self@.machine.wf(),
    {
    }

    /// A tokenizer before the first byte.
    pub fn new() -> (r: Parser)
        ensures
            r.wf(),
            r@ == (ParserView {
                machine: Machine::initial(),
                supplied: Seq::empty(),
                consumed: 0,
                mark: 0,
                exhausted: false,
                failed: false,
            }),
    {
        let r = Parser {
            state: State::FindTag,
            tag: ParserTag {
                name: Vec::new(),
                id: None,
                closing: false,
                data: Vec::new(),
                attributes: Vec::new(),
            },
            buf: Vec::new(),
            end_of_file: false,
            total_parsed: 0,
            tag_start: 0,
            failed: false,
            supplied: Ghost(Seq::empty()),
        };
        assert(r.tag@.attributes =~= Seq::empty());
        assert(r.buf@ =~= r.supplied@.skip(0));
        r
    }

    /// The number of bytes consumed so far.
    pub fn consumed(&self) -> (r: usize)
        ensures
            r == self@.consumed,
    {
        self.total_parsed
    }

    /// Whether the end of the source was announced.
    pub fn is_exhausted(&self) -> (r: bool)
        ensures
            r == self@.exhausted,
    {
        self.end_of_file
    }

    /// The number of bytes supplied and not yet consumed.
    pub fn buffered(&self) -> (r: usize)
        requires
            self.wf(),
            !self@.failed,
        ensures
            r == self@.buffered().len(),
    {
        self.buf.len()
    }

    /// Whether the tokenizer asks for more input.
    pub fn wants_input(&self) -> (r: bool)
        requires
            self.wf(),
            !self@.failed,
        ensures
            r == self@.wants_input(),
    {
        !self.end_of_file && self.buf.len() < LOW_WATER
    }

    /// Whether an unknown tag has ended the parse.
    pub fn has_failed(&self) -> (r: bool)
        ensures
            r == self@.failed,
    {
        self.failed
    }

    /// Hands the tokenizer what a read gave: the next bytes of the document,
    /// or nothing, which announces the end of the source for good.
    pub fn supply(&mut self, chunk: &[u8])
        requires
            old(self).wf(),
            old(self)@.supplied.len() + chunk@.len() <= usize::MAX,
        ensures
            final(self).wf(),
            final(self)@ == if old(self)@.exhausted {
                old(self)@
            } else if chunk@.len() == 0 {
                ParserView { exhausted: true, ..old(self)@ }
            } else {
                ParserView { supplied: old(self)@.supplied + chunk@, ..old(self)@ }
            },
    {
        if self.end_of_file {
            return ;
        }
        if self.failed {
            proof {
                self.supplied = Ghost(self.supplied@ + chunk@);
                assert(chunk@.len() == 0 ==> self.supplied@ =~= old(self).supplied@);
            }
            self.end_of_file = chunk.len() == 0;
            return ;
        }
        if chunk.len() == 0 {
            self.end_of_file = true;
        } else {
            self.buf.extend_from_slice(chunk);
            proof {
                let all = self.supplied@ + chunk@;
                assert(self.buf@ =~= all.skip(self.total_parsed as int));
                self.supplied = Ghost(all);
            }
        }
    }

    /// Lets the tokenizer work on what it holds until it needs more input or
    /// meets an unknown tag, and tells the observer of what it finds.
    pub fn advance<H: IsParser>(&mut self, handler: &mut H) -> (r: Result<(), ParseError>)
        requires
            old(self).wf(),
            old(handler).valid(),
        ensures
            final(self).wf(),
            final(handler).valid(),
            old(self)@.failed ==> {
                &&& final(self)@ == old(self)@
                &&& *final(handler) == *old(handler)
                &&& r == Err::<(), ParseError>(
                    ParseError { error: Error::UnknownTag, consumed: old(self)@.consumed as usize },
                )
            },
            !old(self)@.failed ==> {
                let run = old(self)@.outcome();
                &&& final(self)@ == (ParserView {
                    machine: run.machine,
                    consumed: run.used,
                    mark: run.mark,
                    failed: run.failed,
                    ..old(self)@
                })
                &&& delivered(*old(handler), run.events, *final(handler))
                &&& r == if run.failed {
                    Err::<(), ParseError>(
                        ParseError { error: Error::UnknownTag, consumed: run.used as usize },
                    )
                } else {
                    Ok::<(), ParseError>(())
                }
                &&& !run.failed ==> final(self)@.wants_input() || final(self)@.exhausted
                &&& !run.failed ==> final(self)@.machine.step(
                    final(self)@.supplied,
                    final(self)@.consumed as int,
                ) is Wait
            },
    {
        if self.failed {
            return Err(ParseError { error: Error::UnknownTag, consumed: self.total_parsed });
        }
        let ghost goal = self@.outcome();
        let ghost whole = self.supplied@;
        let ghost mut events: Seq<Event> = Seq::empty();
        loop
            invariant
                self.wf(),
                !self.failed,
                !old(self)@.failed,
                self.supplied@ == whole,
                whole == old(self)@.supplied,
                self.end_of_file == old(self)@.exhausted,
                goal == old(self)@.outcome(),
                goal == self@.machine.run_from(
                    whole,
                    self.total_parsed as int,
                    events,
                    self.tag_start as nat,
                ),
                delivered(*old(handler), events, *handler),
                handler.valid(),
            ensures
                self.wf(),
                !self.failed,
                !old(self)@.failed,
                self.supplied@ == whole,
                whole == old(self)@.supplied,
                self.end_of_file == old(self)@.exhausted,
                goal == old(self)@.outcome(),
                goal == (crate::machine::Run {
                    used: self.total_parsed as nat,
                    machine: self@.machine,
                    events,
                    failed: false,
                    mark: self.tag_start as nat,
                }),
                self@.machine.step(whole, self.total_parsed as int) is Wait,
                delivered(*old(handler), events, *handler),
                handler.valid(),
            decreases self.buf.len(), crate::machine::rank(self.state),
        {
            let home = self.state;
            let ghost here = self@.machine;
            let ghost seen = *handler;
            let ghost from = self.total_parsed as int;
            let ghost mark = self.tag_start as nat;
            proof {
                here.lemma_scan_run(home, whole, from, 0, Seq::empty(), events, mark);
                assert(events + Seq::<Event>::empty() =~= events);
                here.lemma_step_bounds(whole, from);
            }
            if self.buf.len() == 0 {
                break ;
            }
            let result = match home {
                State::FindTag => Ok(
                    Parser::state_find_tag(&self.buf, &mut self.tag, &mut self.state),
                ),
                State::SkipComment => Ok(Parser::state_skip_comment(&self.buf, &mut self.state)),
                State::ReadTagName => Ok(
                    Parser::state_read_tag_name(&self.buf, &mut self.tag, &mut self.state),
                ),
                State::ReadData => Parser::state_read_data(
                    &self.buf,
                    &mut self.tag,
                    &mut self.state,
                    handler,
                ),
                State::ReadRawData => Parser::state_read_raw_data(
                    &self.buf,
                    &mut self.tag,
                    &mut self.state,
                    handler,
                ),
                State::ReadAttributeName => Parser::state_read_attribute_name(
                    &self.buf,
                    &mut self.tag,
                    &mut self.state,
                    handler,
                ),
                State::ReadAttributeValue => Parser::state_read_attribute_value(
                    &self.buf,
                    &mut self.tag,
                    &mut self.state,
                    handler,
                ),
            };
            let ghost s = here.scan(self.buf@);
            proof {
                lemma_delivered_concat(*old(handler), events, seen, s.events, *handler);
            }
            match result {
                Err(e) => {
                    self.failed = true;
                    self.total_parsed = self.tag_start;
                    return Err(ParseError { error: e, consumed: self.tag_start });
                },
                Ok(processed) => {
                    if processed == 0 && self.state == home {
                        break ;
                    }
                    if home == State::FindTag && self.state == State::ReadTagName {
                        self.tag_start = self.total_parsed + processed;
                    }
                    drop_front(&mut self.buf, processed);
                    self.total_parsed = self.total_parsed + processed;
                    proof {
                        events = events + s.events;
                        assert(self.buf@ =~= whole.skip(self.total_parsed as int));
                    }
                },
            }
        }
        proof {
            self@.machine.lemma_step_bounds(whole, self.total_parsed as int);
        }
        Ok(())
    }

    /// Parses a document held in memory and tells the observer of every
    /// start tag, end tag and run of text in it.
    ///
    /// The document is taken in pieces of at most `CHUNK` bytes, one whenever
    /// the tokenizer holds fewer than `LOW_WATER` bytes. The result is the
    /// number of bytes consumed; a construct that the end of the document
    /// cuts short is left unconsumed and unreported. A tag name that is not
    /// recognised ends the parse with `UnknownTag` and the number of bytes
    /// that precede that tag.
    pub fn parse<H: IsParser>(source: &[u8], handler: &mut H) -> (r: Result<usize, ParseError>)
        requires
            old(handler).valid(),
        ensures
            final(handler).valid(),
            ({
                let run = Machine::run(source@);
                &&& delivered(*old(handler), run.events, *final(handler))
                &&& r == if run.failed {
                    Err::<usize, ParseError>(
                        ParseError { error: Error::UnknownTag, consumed: run.used as usize },
                    )
                } else {
                    Ok::<usize, ParseError>(run.used as usize)
                }
                &&& run.used <= source@.len()
            }),
    {
        let mut parser = Parser::new();
        let mut fed: usize = 0;
        let ghost mut events: Seq<Event> = Seq::empty();
        loop
            invariant
                parser.wf(),
                !parser@.failed,
                fed <= source@.len(),
                parser@.supplied == source@.take(fed as int),
                parser@.exhausted ==> fed == source@.len(),
                parser@.consumed <= fed,
                Machine::run(source@) == parser@.machine.run_from(
                    source@,
                    parser@.consumed as int,
                    events,
                    parser@.mark,
                ),
                delivered(*old(handler), events, *handler),
                handler.valid(),
            ensures
                parser.wf(),
                !parser@.failed,
                parser@.consumed <= source@.len(),
                Machine::run(source@) == (crate::machine::Run {
                    used: parser@.consumed,
                    machine: parser@.machine,
                    events,
                    failed: false,
                    mark: parser@.mark,
                }),
                delivered(*old(handler), events, *handler),
                handler.valid(),
            decreases
                    source@.len() - fed,
                    if parser@.exhausted { 0int } else { 1int },
                    if parser@.wants_input() { 0int } else { 1int },
        {
            if parser.wants_input() {
                let rest = source.len() - fed;
                let n = if rest < CHUNK {
                    rest
                } else {
                    CHUNK
                };
                parser.supply(vstd::slice::slice_subrange(source, fed, fed + n));
                fed = fed + n;
                assert(parser@.supplied =~= source@.take(fed as int));
            }
            let ghost before = parser@;
            let ghost seen = *handler;
            proof {
                assert(parser@.exhausted ==> parser@.supplied =~= source@);
                before.machine.lemma_run_prefix(
                    before.supplied,
                    source@,
                    before.consumed as int,
                    Seq::empty(),
                    events,
                    before.mark,
                );
                assert(events + Seq::<Event>::empty() =~= events);
            }
            if parser.buffered() == 0 {
                proof {
                    before.machine.lemma_step_bounds(before.supplied, before.consumed as int);
                }
                break ;
            }
            match parser.advance(handler) {
                Err(e) => {
                    proof {
                        lemma_delivered_concat(
                            *old(handler),
                            events,
                            seen,
                            before.outcome().events,
                            *handler,
                        );
                        parser.lemma_wf();
                    }
                    return Err(e);
                },
                Ok(_) => {},
            }
            proof {
                lemma_delivered_concat(
                    *old(handler),
                    events,
                    seen,
                    before.outcome().events,
                    *handler,
                );
                events = events + before.outcome().events;
            }
            if parser.is_exhausted() {
                break ;
            }
        }
        Ok(parser.consumed())
    }
}

} // verus!
