use vstd::prelude::*;
use vstd::string::StringExecFns;

verus! {

/// The closed set of element names that the tokenizer recognises.
#[derive(Clone, Copy, Debug, PartialEq, Eq, Structural)]
pub enum Tag {
    A,
    ABBR,
    ADDRESS,
    AREA,
    ARTICLE,
    ASIDE,
    AUDIO,
    B,
    BASE,
    BDI,
    BDO,
    BLOCKQUOTE,
    BODY,
    BR,
    BUTTON,
    CANVAS,
    CAPTION,
    CENTER,
    CITE,
    CODE,
    COL,
    COLGROUP,
    DATA,
    DATALIST,
    DD,
    DEL,
    DETAILS,
    DFN,
    DIALOG,
    DIV,
    DL,
    DT,
    EM,
    EMBED,
    FIELDSET,
    FIGCAPTION,
    FIGURE,
    FONT,
    FOOTER,
    FORM,
    H1,
    H2,
    H3,
    H4,
    H5,
    H6,
    HEAD,
    HEADER,
    HR,
    HTML,
    I,
    IFRAME,
    IMG,
    INPUT,
    INS,
    KBD,
    LABEL,
    LEGEND,
    LI,
    LINK,
    MAIN,
    MAP,
    MARK,
    MENU,
    META,
    METER,
    NAV,
    NOSCRIPT,
    OBJECT,
    OL,
    OPTGROUP,
    OPTION,
    OUTPUT,
    P,
    PARAM,
    PICTURE,
    PRE,
    PROGRESS,
    Q,
    RP,
    RT,
    RUBY,
    S,
    SAMP,
    SCRIPT,
    SECTION,
    SELECT,
    SMALL,
    SOURCE,
    SPAN,
    STRONG,
    STYLE,
    SUB,
    SUMMARY,
    SUP,
    TABLE,
    TBODY,
    TD,
    TEMPLATE,
    TEXTAREA,
    TFOOT,
    TH,
    THEAD,
    TIME,
    TITLE,
    TR,
    TRACK,
    U,
    UL,
    VAR,
    VIDEO,
    WBR,
}

/// Number of recognised elements.
pub const TAG_COUNT: usize = 112;

/// The lower-case form of an ASCII byte; every other byte is left as it is.
pub open spec fn lower(b: u8) -> u8 {
    if 65 <= b && b <= 90 {
        (b + 32) as u8
    } else {
        b
    }
}

/// A byte string with every ASCII capital replaced by its lower-case form.
pub open spec fn lowered(text: Seq<u8>) -> Seq<u8> {
    Seq::new(text.len(), |i: int| lower(text[i]))
}

/// The first element at position `from` or later whose name is `text`.
pub open spec fn lookup(text: Seq<u8>, from: usize) -> Option<Tag>
    decreases TAG_COUNT - from,
{
    if from >= TAG_COUNT {
        None
    } else if Tag::at(from).name_bytes() == text {
        Some(Tag::at(from))
    } else {
        lookup(text, (from + 1) as usize)
    }
}

/// The element that a name resolves to, whatever the case of its letters.
pub open spec fn resolve(text: Seq<u8>) -> Option<Tag> {
    lookup(lowered(text), 0)
}

/// What a search from `from` on finds has the name that was searched, and
/// where it finds nothing, no element from there on has that name.
pub proof fn lemma_lookup(text: Seq<u8>, from: usize)
    ensures
        match lookup(text, from) {
            Some(tag) => tag.name_bytes() == text,
            None => forall|tag: Tag| from <= tag.index() ==> tag.name_bytes() != text,
        },
    decreases TAG_COUNT - from,
{
    if from < TAG_COUNT {
        lemma_lookup(text, (from + 1) as usize);
        if lookup(text, from) is None {
            assert forall|tag: Tag| from <= tag.index() implies tag.name_bytes() != text by {
                tag.lemma_at_index();
            }
        }
    } else {
        assert forall|tag: Tag| from <= tag.index() implies tag.name_bytes() != text by {
            tag.lemma_at_index();
        }
    }
}

/// A name resolves to an element that has this name in lower case, and
/// to none only where no element has it.
pub proof fn lemma_resolve(text: Seq<u8>)
    ensures
        match resolve(text) {
            Some(tag) => tag.name_bytes() == lowered(text),
            None => forall|tag: Tag| tag.name_bytes() != lowered(text),
        },
{
    lemma_lookup(lowered(text), 0);
}

/// Turns an ASCII capital into its lower-case form.
pub fn to_lower(b: u8) -> (r: u8)
    ensures
        r == lower(b),
{
    if 65 <= b && b <= 90 {
        b + 32
    } else {
        b
    }
}

impl Tag {
    /// The element's name as it is written in markup, in lower case.
    pub open spec fn name(self) -> Seq<char> {
        match self {
            Tag::A => "a"@,
            Tag::ABBR => "abbr"@,
            Tag::ADDRESS => "address"@,
            Tag::AREA => "area"@,
            Tag::ARTICLE => "article"@,
            Tag::ASIDE => "aside"@,
            Tag::AUDIO => "audio"@,
            Tag::B => "b"@,
            Tag::BASE => "base"@,
            Tag::BDI => "bdi"@,
            Tag::BDO => "bdo"@,
            Tag::BLOCKQUOTE => "blockquote"@,
            Tag::BODY => "body"@,
            Tag::BR => "br"@,
            Tag::BUTTON => "button"@,
            Tag::CANVAS => "canvas"@,
            Tag::CAPTION => "caption"@,
            Tag::CENTER => "center"@,
            Tag::CITE => "cite"@,
            Tag::CODE => "code"@,
            Tag::COL => "col"@,
            Tag::COLGROUP => "colgroup"@,
            Tag::DATA => "data"@,
            Tag::DATALIST => "datalist"@,
            Tag::DD => "dd"@,
            Tag::DEL => "del"@,
            Tag::DETAILS => "details"@,
            Tag::DFN => "dfn"@,
            Tag::DIALOG => "dialog"@,
            Tag::DIV => "div"@,
            Tag::DL => "dl"@,
            Tag::DT => "dt"@,
            Tag::EM => "em"@,
            Tag::EMBED => "embed"@,
            Tag::FIELDSET => "fieldset"@,
            Tag::FIGCAPTION => "figcaption"@,
            Tag::FIGURE => "figure"@,
            Tag::FONT => "font"@,
            Tag::FOOTER => "footer"@,
            Tag::FORM => "form"@,
            Tag::H1 => "h1"@,
            Tag::H2 => "h2"@,
            Tag::H3 => "h3"@,
            Tag::H4 => "h4"@,
            Tag::H5 => "h5"@,
            Tag::H6 => "h6"@,
            Tag::HEAD => "head"@,
            Tag::HEADER => "header"@,
            Tag::HR => "hr"@,
            Tag::HTML => "html"@,
            Tag::I => "i"@,
            Tag::IFRAME => "iframe"@,
            Tag::IMG => "img"@,
            Tag::INPUT => "input"@,
            Tag::INS => "ins"@,
            Tag::KBD => "kbd"@,
            Tag::LABEL => "label"@,
            Tag::LEGEND => "legend"@,
            Tag::LI => "li"@,
            Tag::LINK => "link"@,
            Tag::MAIN => "main"@,
            Tag::MAP => "map"@,
            Tag::MARK => "mark"@,
            Tag::MENU => "menu"@,
            Tag::META => "meta"@,
            Tag::METER => "meter"@,
            Tag::NAV => "nav"@,
            Tag::NOSCRIPT => "noscript"@,
            Tag::OBJECT => "object"@,
            Tag::OL => "ol"@,
            Tag::OPTGROUP => "optgroup"@,
            Tag::OPTION => "option"@,
            Tag::OUTPUT => "output"@,
            Tag::P => "p"@,
            Tag::PARAM => "param"@,
            Tag::PICTURE => "picture"@,
            Tag::PRE => "pre"@,
            Tag::PROGRESS => "progress"@,
            Tag::Q => "q"@,
            Tag::RP => "rp"@,
            Tag::RT => "rt"@,
            Tag::RUBY => "ruby"@,
            Tag::S => "s"@,
            Tag::SAMP => "samp"@,
            Tag::SCRIPT => "script"@,
            Tag::SECTION => "section"@,
            Tag::SELECT => "select"@,
            Tag::SMALL => "small"@,
            Tag::SOURCE => "source"@,
            Tag::SPAN => "span"@,
            Tag::STRONG => "strong"@,
            Tag::STYLE => "style"@,
            Tag::SUB => "sub"@,
            Tag::SUMMARY => "summary"@,
            Tag::SUP => "sup"@,
            Tag::TABLE => "table"@,
            Tag::TBODY => "tbody"@,
            Tag::TD => "td"@,
            Tag::TEMPLATE => "template"@,
            Tag::TEXTAREA => "textarea"@,
            Tag::TFOOT => "tfoot"@,
            Tag::TH => "th"@,
            Tag::THEAD => "thead"@,
            Tag::TIME => "time"@,
            Tag::TITLE => "title"@,
            Tag::TR => "tr"@,
            Tag::TRACK => "track"@,
            Tag::U => "u"@,
            Tag::UL => "ul"@,
            Tag::VAR => "var"@,
            Tag::VIDEO => "video"@,
            Tag::WBR => "wbr"@,
        }
    }

    /// The UTF-8 bytes of the element's name.
    pub open spec fn name_bytes(self) -> Seq<u8> {
        vstd::utf8::encode_utf8(self.name())
    }

    /// The element's position in the enumeration.
    pub open spec fn index(self) -> usize {
        match self {
            Tag::A => 0,
            Tag::ABBR => 1,
            Tag::ADDRESS => 2,
            Tag::AREA => 3,
            Tag::ARTICLE => 4,
            Tag::ASIDE => 5,
            Tag::AUDIO => 6,
            Tag::B => 7,
            Tag::BASE => 8,
            Tag::BDI => 9,
            Tag::BDO => 10,
            Tag::BLOCKQUOTE => 11,
            Tag::BODY => 12,
            Tag::BR => 13,
            Tag::BUTTON => 14,
            Tag::CANVAS => 15,
            Tag::CAPTION => 16,
            Tag::CENTER => 17,
            Tag::CITE => 18,
            Tag::CODE => 19,
            Tag::COL => 20,
            Tag::COLGROUP => 21,
            Tag::DATA => 22,
            Tag::DATALIST => 23,
            Tag::DD => 24,
            Tag::DEL => 25,
            Tag::DETAILS => 26,
            Tag::DFN => 27,
            Tag::DIALOG => 28,
            Tag::DIV => 29,
            Tag::DL => 30,
            Tag::DT => 31,
            Tag::EM => 32,
            Tag::EMBED => 33,
            Tag::FIELDSET => 34,
            Tag::FIGCAPTION => 35,
            Tag::FIGURE => 36,
            Tag::FONT => 37,
            Tag::FOOTER => 38,
            Tag::FORM => 39,
            Tag::H1 => 40,
            Tag::H2 => 41,
            Tag::H3 => 42,
            Tag::H4 => 43,
            Tag::H5 => 44,
            Tag::H6 => 45,
            Tag::HEAD => 46,
            Tag::HEADER => 47,
            Tag::HR => 48,
            Tag::HTML => 49,
            Tag::I => 50,
            Tag::IFRAME => 51,
            Tag::IMG => 52,
            Tag::INPUT => 53,
            Tag::INS => 54,
            Tag::KBD => 55,
            Tag::LABEL => 56,
            Tag::LEGEND => 57,
            Tag::LI => 58,
            Tag::LINK => 59,
            Tag::MAIN => 60,
            Tag::MAP => 61,
            Tag::MARK => 62,
            Tag::MENU => 63,
            Tag::META => 64,
            Tag::METER => 65,
            Tag::NAV => 66,
            Tag::NOSCRIPT => 67,
            Tag::OBJECT => 68,
            Tag::OL => 69,
            Tag::OPTGROUP => 70,
            Tag::OPTION => 71,
            Tag::OUTPUT => 72,
            Tag::P => 73,
            Tag::PARAM => 74,
            Tag::PICTURE => 75,
            Tag::PRE => 76,
            Tag::PROGRESS => 77,
            Tag::Q => 78,
            Tag::RP => 79,
            Tag::RT => 80,
            Tag::RUBY => 81,
            Tag::S => 82,
            Tag::SAMP => 83,
            Tag::SCRIPT => 84,
            Tag::SECTION => 85,
            Tag::SELECT => 86,
            Tag::SMALL => 87,
            Tag::SOURCE => 88,
            Tag::SPAN => 89,
            Tag::STRONG => 90,
            Tag::STYLE => 91,
            Tag::SUB => 92,
            Tag::SUMMARY => 93,
            Tag::SUP => 94,
            Tag::TABLE => 95,
            Tag::TBODY => 96,
            Tag::TD => 97,
            Tag::TEMPLATE => 98,
            Tag::TEXTAREA => 99,
            Tag::TFOOT => 100,
            Tag::TH => 101,
            Tag::THEAD => 102,
            Tag::TIME => 103,
            Tag::TITLE => 104,
            Tag::TR => 105,
            Tag::TRACK => 106,
            Tag::U => 107,
            Tag::UL => 108,
            Tag::VAR => 109,
            Tag::VIDEO => 110,
            Tag::WBR => 111,
        }
    }

    /// The element at a position of the enumeration; positions past the end give the last one.
    pub open spec fn at(i: usize) -> Tag {
        match i {
            0 => Tag::A,
            1 => Tag::ABBR,
            2 => Tag::ADDRESS,
            3 => Tag::AREA,
            4 => Tag::ARTICLE,
            5 => Tag::ASIDE,
            6 => Tag::AUDIO,
            7 => Tag::B,
            8 => Tag::BASE,
            9 => Tag::BDI,
            10 => Tag::BDO,
            11 => Tag::BLOCKQUOTE,
            12 => Tag::BODY,
            13 => Tag::BR,
            14 => Tag::BUTTON,
            15 => Tag::CANVAS,
            16 => Tag::CAPTION,
            17 => Tag::CENTER,
            18 => Tag::CITE,
            19 => Tag::CODE,
            20 => Tag::COL,
            21 => Tag::COLGROUP,
            22 => Tag::DATA,
            23 => Tag::DATALIST,
            24 => Tag::DD,
            25 => Tag::DEL,
            26 => Tag::DETAILS,
            27 => Tag::DFN,
            28 => Tag::DIALOG,
            29 => Tag::DIV,
            30 => Tag::DL,
            31 => Tag::DT,
            32 => Tag::EM,
            33 => Tag::EMBED,
            34 => Tag::FIELDSET,
            35 => Tag::FIGCAPTION,
            36 => Tag::FIGURE,
            37 => Tag::FONT,
            38 => Tag::FOOTER,
            39 => Tag::FORM,
            40 => Tag::H1,
            41 => Tag::H2,
            42 => Tag::H3,
            43 => Tag::H4,
            44 => Tag::H5,
            45 => Tag::H6,
            46 => Tag::HEAD,
            47 => Tag::HEADER,
            48 => Tag::HR,
            49 => Tag::HTML,
            50 => Tag::I,
            51 => Tag::IFRAME,
            52 => Tag::IMG,
            53 => Tag::INPUT,
            54 => Tag::INS,
            55 => Tag::KBD,
            56 => Tag::LABEL,
            57 => Tag::LEGEND,
            58 => Tag::LI,
            59 => Tag::LINK,
            60 => Tag::MAIN,
            61 => Tag::MAP,
            62 => Tag::MARK,
            63 => Tag::MENU,
            64 => Tag::META,
            65 => Tag::METER,
            66 => Tag::NAV,
            67 => Tag::NOSCRIPT,
            68 => Tag::OBJECT,
            69 => Tag::OL,
            70 => Tag::OPTGROUP,
            71 => Tag::OPTION,
            72 => Tag::OUTPUT,
            73 => Tag::P,
            74 => Tag::PARAM,
            75 => Tag::PICTURE,
            76 => Tag::PRE,
            77 => Tag::PROGRESS,
            78 => Tag::Q,
            79 => Tag::RP,
            80 => Tag::RT,
            81 => Tag::RUBY,
            82 => Tag::S,
            83 => Tag::SAMP,
            84 => Tag::SCRIPT,
            85 => Tag::SECTION,
            86 => Tag::SELECT,
            87 => Tag::SMALL,
            88 => Tag::SOURCE,
            89 => Tag::SPAN,
            90 => Tag::STRONG,
            91 => Tag::STYLE,
            92 => Tag::SUB,
            93 => Tag::SUMMARY,
            94 => Tag::SUP,
            95 => Tag::TABLE,
            96 => Tag::TBODY,
            97 => Tag::TD,
            98 => Tag::TEMPLATE,
            99 => Tag::TEXTAREA,
            100 => Tag::TFOOT,
            101 => Tag::TH,
            102 => Tag::THEAD,
            103 => Tag::TIME,
            104 => Tag::TITLE,
            105 => Tag::TR,
            106 => Tag::TRACK,
            107 => Tag::U,
            108 => Tag::UL,
            109 => Tag::VAR,
            110 => Tag::VIDEO,
            _ => Tag::WBR,
        }
    }

    /// Every element sits at its own position.
    pub proof fn lemma_at_index(self)
        ensures
            self.index() < TAG_COUNT,
            Tag::at(self.index()) == self,
    {
    }

    /// The element's name as it is written in markup, in lower case.
    pub fn as_str(&self) -> (r: &'static str)
        ensures
            r@ == self.name(),
    {
        match self {
            Tag::A => "a",
            Tag::ABBR => "abbr",
            Tag::ADDRESS => "address",
            Tag::AREA => "area",
            Tag::ARTICLE => "article",
            Tag::ASIDE => "aside",
            Tag::AUDIO => "audio",
            Tag::B => "b",
            Tag::BASE => "base",
            Tag::BDI => "bdi",
            Tag::BDO => "bdo",
            Tag::BLOCKQUOTE => "blockquote",
            Tag::BODY => "body",
            Tag::BR => "br",
            Tag::BUTTON => "button",
            Tag::CANVAS => "canvas",
            Tag::CAPTION => "caption",
            Tag::CENTER => "center",
            Tag::CITE => "cite",
            Tag::CODE => "code",
            Tag::COL => "col",
            Tag::COLGROUP => "colgroup",
            Tag::DATA => "data",
            Tag::DATALIST => "datalist",
            Tag::DD => "dd",
            Tag::DEL => "del",
            Tag::DETAILS => "details",
            Tag::DFN => "dfn",
            Tag::DIALOG => "dialog",
            Tag::DIV => "div",
            Tag::DL => "dl",
            Tag::DT => "dt",
            Tag::EM => "em",
            Tag::EMBED => "embed",
            Tag::FIELDSET => "fieldset",
            Tag::FIGCAPTION => "figcaption",
            Tag::FIGURE => "figure",
            Tag::FONT => "font",
            Tag::FOOTER => "footer",
            Tag::FORM => "form",
            Tag::H1 => "h1",
            Tag::H2 => "h2",
            Tag::H3 => "h3",
            Tag::H4 => "h4",
            Tag::H5 => "h5",
            Tag::H6 => "h6",
            Tag::HEAD => "head",
            Tag::HEADER => "header",
            Tag::HR => "hr",
            Tag::HTML => "html",
            Tag::I => "i",
            Tag::IFRAME => "iframe",
            Tag::IMG => "img",
            Tag::INPUT => "input",
            Tag::INS => "ins",
            Tag::KBD => "kbd",
            Tag::LABEL => "label",
            Tag::LEGEND => "legend",
            Tag::LI => "li",
            Tag::LINK => "link",
            Tag::MAIN => "main",
            Tag::MAP => "map",
            Tag::MARK => "mark",
            Tag::MENU => "menu",
            Tag::META => "meta",
            Tag::METER => "meter",
            Tag::NAV => "nav",
            Tag::NOSCRIPT => "noscript",
            Tag::OBJECT => "object",
            Tag::OL => "ol",
            Tag::OPTGROUP => "optgroup",
            Tag::OPTION => "option",
            Tag::OUTPUT => "output",
            Tag::P => "p",
            Tag::PARAM => "param",
            Tag::PICTURE => "picture",
            Tag::PRE => "pre",
            Tag::PROGRESS => "progress",
            Tag::Q => "q",
            Tag::RP => "rp",
            Tag::RT => "rt",
            Tag::RUBY => "ruby",
            Tag::S => "s",
            Tag::SAMP => "samp",
            Tag::SCRIPT => "script",
            Tag::SECTION => "section",
            Tag::SELECT => "select",
            Tag::SMALL => "small",
            Tag::SOURCE => "source",
            Tag::SPAN => "span",
            Tag::STRONG => "strong",
            Tag::STYLE => "style",
            Tag::SUB => "sub",
            Tag::SUMMARY => "summary",
            Tag::SUP => "sup",
            Tag::TABLE => "table",
            Tag::TBODY => "tbody",
            Tag::TD => "td",
            Tag::TEMPLATE => "template",
            Tag::TEXTAREA => "textarea",
            Tag::TFOOT => "tfoot",
            Tag::TH => "th",
            Tag::THEAD => "thead",
            Tag::TIME => "time",
            Tag::TITLE => "title",
            Tag::TR => "tr",
            Tag::TRACK => "track",
            Tag::U => "u",
            Tag::UL => "ul",
            Tag::VAR => "var",
            Tag::VIDEO => "video",
            Tag::WBR => "wbr",
        }
    }

    /// The element at a position of the enumeration.
    pub fn from_index(i: usize) -> (r: Tag)
        ensures
            r == Tag::at(i),
    {
        match i {
            0 => Tag::A,
            1 => Tag::ABBR,
            2 => Tag::ADDRESS,
            3 => Tag::AREA,
            4 => Tag::ARTICLE,
            5 => Tag::ASIDE,
            6 => Tag::AUDIO,
            7 => Tag::B,
            8 => Tag::BASE,
            9 => Tag::BDI,
            10 => Tag::BDO,
            11 => Tag::BLOCKQUOTE,
            12 => Tag::BODY,
            13 => Tag::BR,
            14 => Tag::BUTTON,
            15 => Tag::CANVAS,
            16 => Tag::CAPTION,
            17 => Tag::CENTER,
            18 => Tag::CITE,
            19 => Tag::CODE,
            20 => Tag::COL,
            21 => Tag::COLGROUP,
            22 => Tag::DATA,
            23 => Tag::DATALIST,
            24 => Tag::DD,
            25 => Tag::DEL,
            26 => Tag::DETAILS,
            27 => Tag::DFN,
            28 => Tag::DIALOG,
            29 => Tag::DIV,
            30 => Tag::DL,
            31 => Tag::DT,
            32 => Tag::EM,
            33 => Tag::EMBED,
            34 => Tag::FIELDSET,
            35 => Tag::FIGCAPTION,
            36 => Tag::FIGURE,
            37 => Tag::FONT,
            38 => Tag::FOOTER,
            39 => Tag::FORM,
            40 => Tag::H1,
            41 => Tag::H2,
            42 => Tag::H3,
            43 => Tag::H4,
            44 => Tag::H5,
            45 => Tag::H6,
            46 => Tag::HEAD,
            47 => Tag::HEADER,
            48 => Tag::HR,
            49 => Tag::HTML,
            50 => Tag::I,
            51 => Tag::IFRAME,
            52 => Tag::IMG,
            53 => Tag::INPUT,
            54 => Tag::INS,
            55 => Tag::KBD,
            56 => Tag::LABEL,
            57 => Tag::LEGEND,
            58 => Tag::LI,
            59 => Tag::LINK,
            60 => Tag::MAIN,
            61 => Tag::MAP,
            62 => Tag::MARK,
            63 => Tag::MENU,
            64 => Tag::META,
            65 => Tag::METER,
            66 => Tag::NAV,
            67 => Tag::NOSCRIPT,
            68 => Tag::OBJECT,
            69 => Tag::OL,
            70 => Tag::OPTGROUP,
            71 => Tag::OPTION,
            72 => Tag::OUTPUT,
            73 => Tag::P,
            74 => Tag::PARAM,
            75 => Tag::PICTURE,
            76 => Tag::PRE,
            77 => Tag::PROGRESS,
            78 => Tag::Q,
            79 => Tag::RP,
            80 => Tag::RT,
            81 => Tag::RUBY,
            82 => Tag::S,
            83 => Tag::SAMP,
            84 => Tag::SCRIPT,
            85 => Tag::SECTION,
            86 => Tag::SELECT,
            87 => Tag::SMALL,
            88 => Tag::SOURCE,
            89 => Tag::SPAN,
            90 => Tag::STRONG,
            91 => Tag::STYLE,
            92 => Tag::SUB,
            93 => Tag::SUMMARY,
            94 => Tag::SUP,
            95 => Tag::TABLE,
            96 => Tag::TBODY,
            97 => Tag::TD,
            98 => Tag::TEMPLATE,
            99 => Tag::TEXTAREA,
            100 => Tag::TFOOT,
            101 => Tag::TH,
            102 => Tag::THEAD,
            103 => Tag::TIME,
            104 => Tag::TITLE,
            105 => Tag::TR,
            106 => Tag::TRACK,
            107 => Tag::U,
            108 => Tag::UL,
            109 => Tag::VAR,
            110 => Tag::VIDEO,
            _ => Tag::WBR,
        }
    }

    /// Whether `text`, lower-cased, spells this element's name.
    fn spells(&self, text: &[u8]) -> (r: bool)
        ensures
            r == (self.name_bytes() == lowered(text@)),
    {
        let own = self.as_str().as_bytes();
        if own.len() != text.len() {
            return false;
        }
        let mut i: usize = 0;
        while i < text.len()
            invariant
                own@ == self.name_bytes(),
                own@.len() == text@.len(),
                i <= text@.len(),
                forall|j: int| 0 <= j < i ==> own@[j] == lower(text@[j]),
            decreases text.len() - i,
        {
            if own[i] != to_lower(text[i]) {
                assert(lowered(text@)[i as int] == lower(text@[i as int]));
                return false;
            }
            i += 1;
        }
        assert(own@ =~= lowered(text@));
        true
    }

    /// Resolves an element name, read without regard to case.
    pub fn from_name(text: &[u8]) -> (r: Option<Tag>)
        ensures
            r == resolve(text@),
            r matches Some(tag) ==> tag.name_bytes() == lowered(text@),
            r is None ==> forall|tag: Tag| tag.name_bytes() != lowered(text@),
    {
        proof {
            lemma_resolve(text@);
        }
        let mut i: usize = 0;
        while i < TAG_COUNT
            invariant
                i <= TAG_COUNT,
                resolve(text@) == lookup(lowered(text@), i),
            decreases TAG_COUNT - i,
        {
            let tag = Tag::from_index(i);
            if tag.spells(text) {
                return Some(tag);
            }
            i += 1;
        }
        None
    }

    /// The element's name as an owned string.
    pub fn to_string(&self) -> (r: String)
        ensures
            r@ == self.name(),
    {
        String::from_str(self.as_str())
    }

    /// Whether the element's content is kept as raw text up to its closing tag.
    pub open spec fn is_raw_text(self) -> bool {
        self == Tag::SCRIPT || self == Tag::STYLE
    }

    /// Tests whether the element's content is kept as raw text.
    pub fn holds_raw_text(&self) -> (r: bool)
        ensures
            r == self.is_raw_text(),
    {
        match self {
            Tag::SCRIPT => true,
            Tag::STYLE => true,
            _ => false,
        }
    }
}

impl core::str::FromStr for Tag {
    type Err = crate::error::Error;

    /// Resolves an element name that is given as text, read without regard
    /// to case; `UnknownTag` where no element has that name.
    fn from_str(s: &str) -> (r: Result<Tag, crate::error::Error>)
        ensures
            r == match resolve(vstd::utf8::encode_utf8(s@)) {
                Some(tag) => Ok::<Tag, crate::error::Error>(tag),
                None => Err::<Tag, crate::error::Error>(crate::error::Error::UnknownTag),
            },
    {
        match Tag::from_name(s.as_bytes()) {
            Some(tag) => Ok(tag),
            None => Err(crate::error::Error::UnknownTag),
        }
    }
}

} // verus!
