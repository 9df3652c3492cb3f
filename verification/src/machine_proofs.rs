use vstd::prelude::*;
use crate::machine::{
    closing_token, emitted, rank, Event, Machine, Pending, Run, Scan, State, Step, DASH,
    DOUBLE_QUOTE, GT, LOW_WATER, LT, SINGLE_QUOTE,
};
use crate::attribute::AttributeView;
use crate::tag::Tag;

verus! {

/// The closing tag of a raw-text element is shorter than the low-water mark.
pub proof fn lemma_raw_token_short(tag: Tag)
    requires
        tag.is_raw_text(),
    ensures
        closing_token(tag).len() < LOW_WATER,
{
    reveal_strlit("script");
    reveal_strlit("style");
    vstd::utf8::is_ascii_chars_encode_utf8(tag.name());
}

impl Machine {
    /// A step keeps within the buffer and keeps the machine well-formed, and
    /// one that consumes nothing leads to a state of lower rank.
    pub proof fn lemma_step_bounds(self, buf: Seq<u8>, i: int)
        requires
            self.wf(),
        ensures
            match self.step(buf, i) {
                Step::Go { used, next, emit } => {
                    &&& 0 <= i
                    &&& i + used <= buf.len()
                    &&& next.wf()
                    &&& used == 0 ==> rank(next.state) < rank(self.state)
                },
                Step::Wait => i < 0 || buf.len() - i < LOW_WATER,
                Step::Fail => 0 <= i < buf.len(),
            },
    {
        if self.state == State::ReadRawData {
            lemma_raw_token_short(self.tag.id->0);
        }
    }

    /// A step looks at the buffer from its position on, not at what lies before.
    pub proof fn lemma_step_shift(self, whole: Seq<u8>, from: int, i: int)
        requires
            0 <= from <= whole.len(),
            0 <= i,
        ensures
            self.step(whole.skip(from), i) == self.step(whole, from + i),
    {
        let window = whole.skip(from);
        if i < window.len() && self.state == State::ReadRawData {
            if let Some(id) = self.tag.id {
                let n = closing_token(id).len();
                if i + n <= window.len() {
                    assert(window.subrange(i, i + n) =~= whole.subrange(from + i, from + i + n));
                }
            }
        }
    }

    /// A step that did not wait for input is the same whatever input follows.
    pub proof fn lemma_step_prefix(self, short: Seq<u8>, long: Seq<u8>, i: int)
        requires
            short.len() <= long.len(),
            short == long.take(short.len() as int),
            !(self.step(short, i) is Wait),
        ensures
            self.step(long, i) == self.step(short, i),
    {
        if self.state == State::ReadRawData {
            if let Some(id) = self.tag.id {
                let n = closing_token(id).len();
                if i + n <= short.len() {
                    assert(short.subrange(i, i + n) =~= long.subrange(i, i + n));
                }
            }
        }
    }

    /// What one state makes of a window of the input is the beginning of what
    /// the tokenizer makes of the input from there.
    pub proof fn lemma_scan_run(
        self,
        home: State,
        whole: Seq<u8>,
        from: int,
        i: int,
        scanned: Seq<Event>,
        events: Seq<Event>,
        mark: nat,
    )
        requires
            0 <= from,
            0 <= i,
            from + i <= whole.len(),
            self.wf(),
            home == State::FindTag ==> self.state == State::FindTag,
        ensures
            ({
                let s = self.scan_from(home, whole.skip(from), i, scanned);
                let whence = if home == State::FindTag && s.machine.state == State::ReadTagName {
                    (from + s.used) as nat
                } else {
                    mark
                };
                &&& i <= s.used
                &&& s.machine.wf()
                &&& s.failed ==> self.run_from(whole, from + i, events + scanned, mark) == Run {
                    used: mark,
                    machine: s.machine,
                    events: events + s.events,
                    failed: true,
                    mark,
                }
                &&& !s.failed ==> self.run_from(whole, from + i, events + scanned, mark)
                    == s.machine.run_from(whole, from + s.used, events + s.events, whence)
                &&& !s.failed && s.used == i && s.machine.state == self.state && self.state == home
                    ==> self.step(whole, from + i) is Wait
                &&& s.used == i && s.machine.state != self.state ==> rank(s.machine.state) < rank(
                    self.state,
                )
                &&& from + s.used <= whole.len()
            }),
        decreases whole.len() - from - i,
    {
        let window = whole.skip(from);
        self.lemma_step_shift(whole, from, i);
        self.lemma_step_bounds(window, i);
        if self.state == home {
            match self.step(window, i) {
                Step::Go { used, next, emit } => {
                    assert((events + scanned) + emitted(emit) =~= events + (scanned + emitted(
                        emit,
                    )));
                    if used > 0 {
                        next.lemma_scan_run(
                            home,
                            whole,
                            from,
                            i + used,
                            scanned + emitted(emit),
                            events,
                            mark,
                        );
                    }
                },
                _ => {},
            }
        }
    }

    /// What the tokenizer makes of the beginning of its input is the
    /// beginning of what it makes of all of it.
    pub proof fn lemma_run_prefix(
        self,
        short: Seq<u8>,
        long: Seq<u8>,
        i: int,
        done: Seq<Event>,
        events: Seq<Event>,
        mark: nat,
    )
        requires
            short.len() <= long.len(),
            short == long.take(short.len() as int),
            0 <= i,
            self.wf(),
        ensures
            ({
                let r = self.run_from(short, i, done, mark);
                &&& !r.failed ==> i <= r.used <= short.len() || short.len() < i == r.used
                &&& r.failed ==> r.used == r.mark
                &&& r.machine.wf()
                &&& r.failed ==> self.run_from(long, i, events + done, mark) == Run {
                    events: events + r.events,
                    ..r
                }
                &&& !r.failed ==> self.run_from(long, i, events + done, mark) == r.machine.run_from(
                    long,
                    r.used as int,
                    events + r.events,
                    r.mark,
                )
                &&& !r.failed ==> r.machine.step(short, r.used as int) is Wait
            }),
        decreases short.len() - i, rank(self.state),
    {
        self.lemma_step_bounds(short, i);
        match self.step(short, i) {
            Step::Go { used, next, emit } => {
                self.lemma_step_prefix(short, long, i);
                assert((events + done) + emitted(emit) =~= events + (done + emitted(emit)));
                let whence = if self.state == State::FindTag && next.state == State::ReadTagName {
                    i as nat
                } else {
                    mark
                };
                next.lemma_run_prefix(short, long, i + used, done + emitted(emit), events, whence);
            },
            Step::Fail => {
                self.lemma_step_prefix(short, long, i);
            },
            Step::Wait => {},
        }
    }
}

/// Whether `-->` stands at position `at`.
pub open spec fn comment_ends(buf: Seq<u8>, at: int) -> bool {
    0 <= at && at + 3 <= buf.len() && buf[at] == DASH && buf[at + 1] == DASH && buf[at + 2] == GT
}

/// Whether the closing tag of `tag` stands at position `at`.
pub open spec fn closes(buf: Seq<u8>, at: int, tag: Tag) -> bool {
    0 <= at && at + closing_token(tag).len() <= buf.len() && buf.subrange(
        at,
        at + closing_token(tag).len(),
    ) == closing_token(tag)
}

/// Whether a byte is a quote or the `>` that ends a tag.
pub open spec fn ends_quoted(b: u8) -> bool {
    b == DOUBLE_QUOTE || b == SINGLE_QUOTE || b == GT
}

impl Machine {
    /// A comment is passed over up to and including the first `-->`, and
    /// nothing is reported of it.
    pub proof fn lemma_comment_skipped(
        self,
        buf: Seq<u8>,
        i: int,
        end: int,
        events: Seq<Event>,
        mark: nat,
    )
        requires
            self.state == State::SkipComment,
            0 <= i <= end,
            comment_ends(buf, end),
            forall|j: int| i <= j < end ==> !comment_ends(buf, j),
        ensures
            self.run_from(buf, i, events, mark) == self.moved(State::ReadData).run_from(
                buf,
                end + 3,
                events,
                mark,
            ),
        decreases end - i,
    {
        assert(events + emitted(None) =~= events);
        if i < end {
            assert(!comment_ends(buf, i));
            self.lemma_comment_skipped(buf, i + 1, end, events, mark);
        }
    }

    /// A comment between two runs of text parts them: the text before it is
    /// reported where the comment begins, nothing is reported of the comment,
    /// and the text after it is accumulated afresh.
    pub proof fn lemma_comment_parts_text(
        self,
        buf: Seq<u8>,
        i: int,
        end: int,
        events: Seq<Event>,
        mark: nat,
    )
        requires
            self.state == State::ReadData,
            0 <= i,
            i + 2 <= end,
            buf[i] == LT,
            buf[i + 1] == crate::machine::BANG,
            buf[i + 2] == DASH,
            comment_ends(buf, end),
            forall|j: int| i + 2 <= j < end ==> !comment_ends(buf, j),
        ensures
            self.run_from(buf, i, events, mark) == (Machine {
                state: State::ReadData,
                tag: Pending {
                    name: Seq::empty(),
                    id: None,
                    closing: false,
                    data: Seq::empty(),
                    ..self.tag
                },
            }).run_from(buf, end + 3, events + emitted(self.tag.text()), i as nat),
    {
        let told = events + emitted(self.tag.text());
        let found = self.moved(State::FindTag);
        let named = Machine {
            state: State::ReadTagName,
            tag: Pending {
                name: Seq::empty(),
                id: None,
                closing: false,
                data: Seq::empty(),
                ..self.tag
            },
        };
        assert(told + emitted(None) =~= told);
        assert(self.run_from(buf, i, events, mark) == found.run_from(buf, i, told, mark));
        assert(found.run_from(buf, i, told, mark) == named.run_from(buf, i, told, i as nat));
        assert(named.run_from(buf, i, told, i as nat) == named.run_from(
            buf,
            i + 1,
            told,
            i as nat,
        ));
        let skipping = named.moved(State::SkipComment);
        assert(named.run_from(buf, i + 1, told, i as nat) == skipping.run_from(
            buf,
            i + 2,
            told,
            i as nat,
        ));
        skipping.lemma_comment_skipped(buf, i + 2, end, told, i as nat);
    }

    /// The content of a raw-text element is kept byte for byte, `<` among
    /// them, up to the first place where the closing tag of the element
    /// stands, and is reported there as one run of text.
    pub proof fn lemma_raw_text_verbatim(
        self,
        buf: Seq<u8>,
        i: int,
        end: int,
        events: Seq<Event>,
    )
        requires
            self.state == State::ReadRawData,
            self.tag.id is Some,
            0 <= i <= end,
            closes(buf, end, self.tag.id->0),
            forall|j: int| i <= j < end ==> !closes(buf, j, self.tag.id->0),
        ensures
            ({
                let kept = Pending { data: self.tag.data + buf.subrange(i, end), ..self.tag };
                self.scan_from(State::ReadRawData, buf, i, events) == Scan {
                    used: end as nat,
                    machine: Machine { state: State::FindTag, tag: kept },
                    events: events + emitted(kept.text()),
                    failed: false,
                }
            }),
        decreases end - i,
    {
        let tag = self.tag.id->0;
        if i < end {
            assert(!closes(buf, i, tag));
            let next = Machine { tag: Pending { data: self.tag.data.push(buf[i]), ..self.tag }, ..self };
            assert(self.step(buf, i) == self.keep(buf[i]));
            assert(events + emitted(None) =~= events);
            next.lemma_raw_text_verbatim(buf, i + 1, end, events);
            assert(self.tag.data.push(buf[i]) + buf.subrange(i + 1, end) =~= self.tag.data
                + buf.subrange(i, end));
        } else {
            assert(buf[i] == closing_token(tag)[0]);
            assert(self.tag.data + buf.subrange(i, end) =~= self.tag.data);
        }
    }

    /// A value in quotes is one value, spaces and all: what stands between
    /// the opening quote and the next quote becomes the value of the
    /// attribute, without the quotes, and the next attribute begins.
    pub proof fn lemma_quoted_value(self, buf: Seq<u8>, i: int, end: int)
        requires
            self.state == State::ReadAttributeValue,
            self.tag.attributes.len() > 0,
            self.tag.current().value.len() == 0,
            0 <= i < end < buf.len(),
            crate::machine::is_quote(buf[i]),
            crate::machine::is_quote(buf[end]),
            forall|j: int| i < j < end ==> !ends_quoted(#[trigger] buf[j]),
        ensures
            self.scan_from(State::ReadAttributeValue, buf, i, Seq::empty()) == (Scan {
                used: (end + 1) as nat,
                machine: Machine {
                    state: State::ReadAttributeName,
                    tag: Pending {
                        attributes: self.tag.with_current(
                            AttributeView {
                                value: buf.subrange(i + 1, end),
                                ..self.tag.current()
                            },
                        ).attributes.push(crate::machine::placeholder()),
                        ..self.tag
                    },
                },
                events: Seq::empty(),
                failed: false,
            }),
    {
        let current = self.tag.current();
        let opened = Machine {
            tag: self.tag.with_current(AttributeView { value: seq![buf[i]], ..current }),
            ..self
        };
        assert(current.value.push(buf[i]) =~= seq![buf[i]]);
        assert(Seq::<Event>::empty() + emitted(None) =~= Seq::<Event>::empty());
        assert(self.step(buf, i) == self.grow_value(buf[i]));
        assert(seq![buf[i]] =~= buf.subrange(i, i + 1));
        assert(opened.tag.current() == (AttributeView { value: buf.subrange(i, i + 1), ..current }));
        opened.lemma_quoted_value_rest(buf, i, i + 1, end, current);
        assert(opened.tag.with_current(
            AttributeView { value: buf.subrange(i + 1, end), ..current },
        ).attributes =~= self.tag.with_current(
            AttributeView { value: buf.subrange(i + 1, end), ..current },
        ).attributes);
    }

    /// The bytes between the quotes are added to the value one by one.
    pub proof fn lemma_quoted_value_rest(
        self,
        buf: Seq<u8>,
        open: int,
        i: int,
        end: int,
        start: AttributeView,
    )
        requires
            self.state == State::ReadAttributeValue,
            self.tag.attributes.len() > 0,
            0 <= open < i <= end < buf.len(),
            crate::machine::is_quote(buf[open]),
            crate::machine::is_quote(buf[end]),
            forall|j: int| open < j < end ==> !ends_quoted(#[trigger] buf[j]),
            self.tag.current() == (AttributeView { value: buf.subrange(open, i), ..start }),
        ensures
            self.scan_from(State::ReadAttributeValue, buf, i, Seq::empty()) == (Scan {
                used: (end + 1) as nat,
                machine: Machine {
                    state: State::ReadAttributeName,
                    tag: Pending {
                        attributes: self.tag.with_current(
                            AttributeView { value: buf.subrange(open + 1, end), ..start },
                        ).attributes.push(crate::machine::placeholder()),
                        ..self.tag
                    },
                },
                events: Seq::empty(),
                failed: false,
            }),
        decreases end - i,
    {
        let current = self.tag.current();
        assert(Seq::<Event>::empty() + emitted(None) =~= Seq::<Event>::empty());
        assert(current.value[0] == buf[open]);
        if i < end {
            assert(!ends_quoted(buf[i]));
            let next = Machine {
                tag: self.tag.with_current(
                    AttributeView { value: current.value.push(buf[i]), ..current },
                ),
                ..self
            };
            assert(self.step(buf, i) == self.grow_value(buf[i]));
            assert(current.value.push(buf[i]) =~= buf.subrange(open, i + 1));
            assert(next.tag.current() == (AttributeView {
                value: buf.subrange(open, i + 1),
                ..start
            }));
            next.lemma_quoted_value_rest(buf, open, i + 1, end, start);
            assert(next.tag.with_current(
                AttributeView { value: buf.subrange(open + 1, end), ..start },
            ).attributes =~= self.tag.with_current(
                AttributeView { value: buf.subrange(open + 1, end), ..start },
            ).attributes);
        } else {
            let inner = buf.subrange(open + 1, end);
            assert(current.value.drop_first() =~= inner);
            if inner.len() > 0 {
                assert(inner.last() == buf[end - 1]);
                assert(!ends_quoted(buf[end - 1]));
            }
            assert(crate::machine::strip_quotes(current.value) == inner);
            let done = AttributeView { value: inner, ..current };
            assert(self.step(buf, i) == self.next_attribute(done));
            let next = self.next_attribute(done)->next;
            assert(next.scan_from(State::ReadAttributeValue, buf, i + 1, Seq::empty()) == (Scan {
                used: (i + 1) as nat,
                machine: next,
                events: Seq::empty(),
                failed: false,
            }));
        }
    }

    /// Where the tokenizer fails, it counts as consumed what stands before
    /// the `<` of the tag whose name it could not resolve.
    pub proof fn lemma_failure_mark(self, buf: Seq<u8>, i: int, events: Seq<Event>, mark: nat)
        requires
            0 <= i,
            self.state == State::ReadTagName || self.state == State::ReadAttributeName
                || self.state == State::ReadAttributeValue ==> mark <= i && mark < buf.len()
                && buf[mark as int] == LT,
        ensures
            ({
                let r = self.run_from(buf, i, events, mark);
                r.failed ==> r.used == r.mark && r.mark < buf.len() && buf[r.mark as int] == LT
            }),
        decreases buf.len() - i, rank(self.state),
    {
        match self.step(buf, i) {
            Step::Go { used, next, emit } => {
                let whence = if self.state == State::FindTag && next.state == State::ReadTagName {
                    i as nat
                } else {
                    mark
                };
                next.lemma_failure_mark(buf, i + used, events + emitted(emit), whence);
            },
            _ => {},
        }
    }
}

} // verus!
