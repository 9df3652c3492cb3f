use vstd::prelude::*;
use crate::attribute::AttributeView;
use crate::tag::Tag;

verus! {

/// The byte of `<`.
pub const LT: u8 = 60;

/// The byte of `>`.
pub const GT: u8 = 62;

/// The byte of `/`.
pub const SLASH: u8 = 47;

/// The byte of `!`.
pub const BANG: u8 = 33;

/// The byte of `-`.
pub const DASH: u8 = 45;

/// The byte of `=`.
pub const EQUALS: u8 = 61;

/// The byte of a space.
pub const SPACE: u8 = 32;

/// The byte of `"`.
pub const DOUBLE_QUOTE: u8 = 34;

/// The byte of `'`.
pub const SINGLE_QUOTE: u8 = 39;

/// The byte of a tab.
pub const TAB: u8 = 9;

/// The byte of a line feed.
pub const LINE_FEED: u8 = 10;

/// The byte of a carriage return.
pub const CARRIAGE_RETURN: u8 = 13;

/// The tokenizer asks for more input while it holds fewer bytes than this.
pub const LOW_WATER: usize = 64;

/// The most bytes that are taken from the source at once.
pub const CHUNK: usize = 2048;

/// The lexical states of the tokenizer.
#[derive(Clone, Copy, Debug, PartialEq, Eq, Structural)]
pub enum State {
    /// Passing over bytes up to the next `<`.
    FindTag,
    /// Passing over a comment up to the `-->` that ends it.
    SkipComment,
    /// Reading the name of a tag.
    ReadTagName,
    /// Reading text up to the next tag.
    ReadData,
    /// Reading the content of a raw-text element up to its closing tag.
    ReadRawData,
    /// Reading the name of an attribute.
    ReadAttributeName,
    /// Reading the value of an attribute.
    ReadAttributeValue,
}

/// What the tokenizer reports to its observer.
pub enum Event {
    /// A start tag with its attributes in their order.
    StartTag(Tag, Seq<AttributeView>),
    /// An end tag.
    EndTag(Tag),
    /// A run of text.
    Data(Seq<u8>),
}

/// The tag and the text that are being put together.
pub struct Pending {
    /// The bytes of the tag name read so far.
    pub name: Seq<u8>,
    /// The element that the name of the last finished tag resolved to.
    pub id: Option<Tag>,
    /// Whether the tag is an end tag.
    pub closing: bool,
    /// The text read so far.
    pub data: Seq<u8>,
    /// The attributes read so far; the last one is being read.
    pub attributes: Seq<AttributeView>,
}

/// The tokenizer between two bytes: its state and what it has accumulated.
pub struct Machine {
    /// The lexical state.
    pub state: State,
    /// What has been accumulated.
    pub tag: Pending,
}

/// What the tokenizer does at one position of its input.
pub enum Step {
    /// Nothing can be decided before more input is there.
    Wait,
    /// The accumulated tag name is not a recognised element.
    Fail,
    /// `used` bytes are consumed, the machine moves on, and an event may be reported.
    Go { used: nat, next: Machine, emit: Option<Event> },
}

/// The outcome of letting one state work on a buffer.
pub struct Scan {
    /// The position up to which the buffer is consumed.
    pub used: nat,
    /// The machine as the state leaves it.
    pub machine: Machine,
    /// What was reported, in its order.
    pub events: Seq<Event>,
    /// Whether a tag name could not be resolved.
    pub failed: bool,
}

/// The outcome of letting the tokenizer work on its input as far as it gets.
pub struct Run {
    /// How many bytes count as consumed: where the tokenizer stopped, or,
    /// where a tag name could not be resolved, where that tag starts.
    pub used: nat,
    /// The machine as it stopped.
    pub machine: Machine,
    /// What was reported, in its order.
    pub events: Seq<Event>,
    /// Whether a tag name could not be resolved.
    pub failed: bool,
    /// Where the tag that was last begun starts.
    pub mark: nat,
}

/// Whether a byte is a double or a single quote.
pub open spec fn is_quote(b: u8) -> bool {
    b == DOUBLE_QUOTE || b == SINGLE_QUOTE
}

/// A value without the quote that may open it and the quote that may close it.
pub open spec fn strip_quotes(value: Seq<u8>) -> Seq<u8> {
    let rest = if value.len() != 0 && is_quote(value[0]) {
        value.drop_first()
    } else {
        value
    };
    if rest.len() != 0 && is_quote(rest.last()) {
        rest.drop_last()
    } else {
        rest
    }
}

/// An attribute of which nothing has been read yet.
pub open spec fn placeholder() -> AttributeView {
    AttributeView { name: Seq::empty(), value: Seq::empty() }
}

/// The bytes that close a raw-text element: `</`, its name and `>`.
pub open spec fn closing_token(tag: Tag) -> Seq<u8> {
    seq![LT, SLASH] + tag.name_bytes() + seq![GT]
}

/// An optional event as a sequence of none or one.
pub open spec fn emitted(emit: Option<Event>) -> Seq<Event> {
    match emit {
        Some(e) => seq![e],
        None => Seq::empty(),
    }
}

/// How far a state is from one that consumes a byte whatever it sees.
pub open spec fn rank(state: State) -> nat {
    match state {
        State::ReadAttributeName => 0,
        State::ReadAttributeValue => 0,
        State::ReadTagName => 1,
        State::FindTag => 2,
        State::SkipComment => 3,
        State::ReadData => 3,
        State::ReadRawData => 3,
    }
}

impl Pending {
    /// The accumulator before anything was read.
    pub open spec fn empty() -> Pending {
        Pending {
            name: Seq::empty(),
            id: None,
            closing: false,
            data: Seq::empty(),
            attributes: Seq::empty(),
        }
    }

    /// The attribute that is being read.
    pub open spec fn current(self) -> AttributeView {
        self.attributes.last()
    }

    /// The attributes with the one being read replaced.
    pub open spec fn with_current(self, attribute: AttributeView) -> Pending {
        Pending {
            attributes: self.attributes.update(self.attributes.len() - 1, attribute),
            ..self
        }
    }

    /// The attributes of a finished tag: a last one without a name is left out.
    pub open spec fn settled(self) -> Seq<AttributeView> {
        if self.attributes.len() > 0 && self.attributes.last().name.len() == 0 {
            self.attributes.drop_last()
        } else {
            self.attributes
        }
    }

    /// The accumulated text as an event, if there is any text.
    pub open spec fn text(self) -> Option<Event> {
        if self.data.len() > 0 {
            Some(Event::Data(self.data))
        } else {
            None
        }
    }
}

impl Machine {
    /// The tokenizer before the first byte.
    pub open spec fn initial() -> Machine {
        Machine { state: State::FindTag, tag: Pending::empty() }
    }

    /// While attributes are read there is one to read into, and raw text is
    /// read only inside a raw-text element.
    pub open spec fn wf(self) -> bool {
        &&& (self.state == State::ReadAttributeName || self.state == State::ReadAttributeValue)
            ==> self.tag.attributes.len() > 0
        &&& self.state == State::ReadRawData ==> self.tag.id is Some
            && self.tag.id->0.is_raw_text()
    }

    /// The machine in another state, with what it has accumulated.
    pub open spec fn moved(self, state: State) -> Machine {
        Machine { state, ..self }
    }

    /// One byte added to the accumulated text.
    pub open spec fn keep(self, b: u8) -> Step {
        Step::Go {
            used: 1,
            next: Machine { tag: Pending { data: self.tag.data.push(b), ..self.tag }, ..self },
            emit: None,
        }
    }

    /// One byte passed over.
    pub open spec fn skip(self) -> Step {
        Step::Go { used: 1, next: self, emit: None }
    }

    /// The tag is complete: its name is resolved and it is reported.
    pub open spec fn finish(self) -> Step {
        match crate::tag::resolve(self.tag.name) {
            None => Step::Fail,
            Some(id) => Step::Go {
                used: 1,
                next: Machine {
                    state: if !self.tag.closing && id.is_raw_text() {
                        State::ReadRawData
                    } else {
                        State::ReadData
                    },
                    tag: Pending { id: Some(id), attributes: Seq::empty(), ..self.tag },
                },
                emit: Some(
                    if self.tag.closing {
                        Event::EndTag(id)
                    } else {
                        Event::StartTag(id, self.tag.settled())
                    },
                ),
            },
        }
    }

    /// The attribute being read is complete and the next one begins.
    pub open spec fn next_attribute(self, done: AttributeView) -> Step {
        Step::Go {
            used: 1,
            next: Machine {
                state: State::ReadAttributeName,
                tag: Pending {
                    attributes: self.tag.with_current(done).attributes.push(placeholder()),
                    ..self.tag
                },
            },
            emit: None,
        }
    }

    /// Bytes are passed over up to a `<`, where a new tag begins.
    pub open spec fn step_find_tag(self, b: u8) -> Step {
        if b == LT {
            Step::Go {
                used: 0,
                next: Machine {
                    state: State::ReadTagName,
                    tag: Pending {
                        name: Seq::empty(),
                        id: None,
                        closing: false,
                        data: Seq::empty(),
                        ..self.tag
                    },
                },
                emit: None,
            }
        } else {
            self.skip()
        }
    }

    /// Bytes are passed over up to and including `-->`.
    pub open spec fn step_skip_comment(self, buf: Seq<u8>, i: int) -> Step {
        if i + 3 > buf.len() {
            Step::Wait
        } else if buf[i] == DASH && buf[i + 1] == DASH && buf[i + 2] == GT {
            Step::Go { used: 3, next: self.moved(State::ReadData), emit: None }
        } else {
            self.skip()
        }
    }

    /// The name of a tag is accumulated up to `>` or a space.
    pub open spec fn step_read_tag_name(self, buf: Seq<u8>, i: int) -> Step {
        let b = buf[i];
        if b == LT || b == CARRIAGE_RETURN || b == LINE_FEED {
            self.skip()
        } else if b == BANG {
            if i + 2 > buf.len() {
                Step::Wait
            } else if buf[i + 1] == DASH {
                Step::Go { used: 1, next: self.moved(State::SkipComment), emit: None }
            } else {
                Step::Go { used: 1, next: self.moved(State::FindTag), emit: None }
            }
        } else if b == SLASH {
            Step::Go {
                used: 1,
                next: Machine { tag: Pending { closing: true, ..self.tag }, ..self },
                emit: None,
            }
        } else if b == GT || b == SPACE {
            Step::Go {
                used: 0,
                next: Machine {
                    state: State::ReadAttributeName,
                    tag: Pending { attributes: seq![placeholder()], ..self.tag },
                },
                emit: None,
            }
        } else {
            Step::Go {
                used: 1,
                next: Machine { tag: Pending { name: self.tag.name.push(b), ..self.tag }, ..self },
                emit: None,
            }
        }
    }

    /// Text is accumulated up to the next `<`, where it is reported.
    pub open spec fn step_read_data(self, b: u8) -> Step {
        if b == LT {
            Step::Go { used: 0, next: self.moved(State::FindTag), emit: self.tag.text() }
        } else {
            self.keep(b)
        }
    }

    /// Text is accumulated up to the closing tag of the raw-text element that
    /// is open; any other `<` is text.
    pub open spec fn step_read_raw_data(self, buf: Seq<u8>, i: int) -> Step {
        let b = buf[i];
        if b == LT {
            match self.tag.id {
                None => self.keep(b),
                Some(id) => {
                    let token = closing_token(id);
                    if i + token.len() > buf.len() {
                        Step::Wait
                    } else if buf.subrange(i, i + token.len()) == token {
                        Step::Go {
                            used: 0,
                            next: self.moved(State::FindTag),
                            emit: self.tag.text(),
                        }
                    } else {
                        self.keep(b)
                    }
                },
            }
        } else {
            self.keep(b)
        }
    }

    /// The name of an attribute is accumulated.
    pub open spec fn step_read_attribute_name(self, b: u8) -> Step {
        let current = self.tag.current();
        if b == GT || b == SLASH {
            self.finish()
        } else if b == EQUALS {
            Step::Go { used: 1, next: self.moved(State::ReadAttributeValue), emit: None }
        } else if b == SPACE {
            if current.name.len() > 0 {
                self.next_attribute(current)
            } else {
                self.skip()
            }
        } else if b == LINE_FEED || b == CARRIAGE_RETURN || b == TAB {
            self.skip()
        } else {
            Step::Go {
                used: 1,
                next: Machine {
                    tag: self.tag.with_current(
                        AttributeView { name: current.name.push(b), ..current },
                    ),
                    ..self
                },
                emit: None,
            }
        }
    }

    /// One byte added to the value of the attribute being read.
    pub open spec fn grow_value(self, b: u8) -> Step {
        let current = self.tag.current();
        Step::Go {
            used: 1,
            next: Machine {
                tag: self.tag.with_current(
                    AttributeView { value: current.value.push(b), ..current },
                ),
                ..self
            },
            emit: None,
        }
    }

    /// The value of an attribute is accumulated: a quote after the first byte
    /// ends it, a space ends it unless a quote opened it, and `>` ends the tag.
    pub open spec fn step_read_attribute_value(self, b: u8) -> Step {
        let current = self.tag.current();
        if b == GT {
            self.finish()
        } else if is_quote(b) {
            if current.value.len() > 0 {
                self.next_attribute(
                    AttributeView { value: strip_quotes(current.value), ..current },
                )
            } else {
                self.grow_value(b)
            }
        } else if b == SPACE {
            if current.value.len() > 0 && !is_quote(current.value[0]) {
                self.next_attribute(current)
            } else {
                self.grow_value(b)
            }
        } else {
            self.grow_value(b)
        }
    }

    /// What the tokenizer does at position `i` of `buf`.
    pub open spec fn step(self, buf: Seq<u8>, i: int) -> Step {
        if i < 0 || i >= buf.len() {
            Step::Wait
        } else {
            match self.state {
                State::FindTag => self.step_find_tag(buf[i]),
                State::SkipComment => self.step_skip_comment(buf, i),
                State::ReadTagName => self.step_read_tag_name(buf, i),
                State::ReadData => self.step_read_data(buf[i]),
                State::ReadRawData => self.step_read_raw_data(buf, i),
                State::ReadAttributeName => self.step_read_attribute_name(buf[i]),
                State::ReadAttributeValue => self.step_read_attribute_value(buf[i]),
            }
        }
    }

    /// The steps of one state from position `i` on: they end where the state
    /// is left, where the input does not suffice, or where the tag is unknown.
    pub open spec fn scan_from(self, home: State, buf: Seq<u8>, i: int, events: Seq<Event>) -> Scan
        decreases buf.len() - i,
    {
        if self.state != home {
            Scan { used: i as nat, machine: self, events, failed: false }
        } else {
            match self.step(buf, i) {
                Step::Wait => Scan { used: i as nat, machine: self, events, failed: false },
                Step::Fail => Scan { used: i as nat, machine: self, events, failed: true },
                Step::Go { used, next, emit } => {
                    if used == 0 {
                        Scan {
                            used: i as nat,
                            machine: next,
                            events: events + emitted(emit),
                            failed: false,
                        }
                    } else {
                        next.scan_from(home, buf, i + used, events + emitted(emit))
                    }
                },
            }
        }
    }

    /// What the state the machine is in makes of a buffer.
    pub open spec fn scan(self, buf: Seq<u8>) -> Scan {
        self.scan_from(self.state, buf, 0, Seq::empty())
    }

    /// All the steps from position `i` on, through every state, to the point
    /// where the input does not suffice or the tag is unknown. Of a tag that is
    /// unknown nothing counts as consumed: `used` is then where the tag starts.
    pub open spec fn run_from(self, buf: Seq<u8>, i: int, events: Seq<Event>, mark: nat) -> Run
        decreases buf.len() - i, rank(self.state),
    {
        match self.step(buf, i) {
            Step::Wait => Run { used: i as nat, machine: self, events, failed: false, mark },
            Step::Fail => Run { used: mark, machine: self, events, failed: true, mark },
            Step::Go { used, next, emit } => next.run_from(
                buf,
                i + used,
                events + emitted(emit),
                if self.state == State::FindTag && next.state == State::ReadTagName {
                    i as nat
                } else {
                    mark
                },
            ),
        }
    }

    /// What the tokenizer makes of a whole document.
    pub open spec fn run(buf: Seq<u8>) -> Run {
        Machine::initial().run_from(buf, 0, Seq::empty(), 0)
    }
}

} // verus!
