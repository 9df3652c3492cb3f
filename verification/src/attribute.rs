use vstd::prelude::*;
use vstd::string::StringExecFns;
use vstd::string::StrSliceExecFns;
use vstd::utf8::{decode_utf8, encode_utf8, valid_utf8};
use crate::text::string_from_utf8;
use crate::traits::ToHTML;

verus! {

/// What an attribute holds: the bytes of its name and of its value.
pub struct AttributeView {
    /// The bytes of the name.
    pub name: Seq<u8>,
    /// The bytes of the value; none for a boolean attribute.
    pub value: Seq<u8>,
}

impl AttributeView {
    /// An attribute without a value.
    pub open spec fn is_boolean(self) -> bool {
        self.value.len() == 0
    }

    /// Whether both the name and the value are well-formed UTF-8.
    pub open spec fn renderable(self) -> bool {
        valid_utf8(self.name) && valid_utf8(self.value)
    }

    /// The attribute as it is written inside a start tag: the bare name for a
    /// boolean attribute, else the name, an equals sign and the value in
    /// double quotes.
    pub open spec fn html(self) -> Seq<char> {
        if self.is_boolean() {
            decode_utf8(self.name)
        } else {
            decode_utf8(self.name) + "=\""@ + decode_utf8(self.value) + "\""@
        }
    }
}

/// An HTML attribute: a name and a value, both kept as bytes.
pub struct Attribute {
    /// The bytes of the name.
    pub name: Vec<u8>,
    /// The bytes of the value; none for a boolean attribute.
    pub value: Vec<u8>,
}

impl View for Attribute {
    type V = AttributeView;

    open spec fn view(&self) -> AttributeView {
        AttributeView { name: self.name@, value: self.value@ }
    }
}

impl DeepView for Attribute {
    type V = AttributeView;

    open spec fn deep_view(&self) -> AttributeView {
        self@
    }
}

impl Clone for Attribute {
    fn clone(&self) -> (r: Attribute)
        ensures
            r@ == self@,
    {
        Attribute { name: self.name.clone(), value: self.value.clone() }
    }
}

impl Attribute {
    /// Creates an attribute with a name and a value.
    pub fn new(name: &str, value: &str) -> (r: Attribute)
        ensures
            r@.name == encode_utf8(name@),
            r@.value == encode_utf8(value@),
    {
        Attribute { name: name.as_bytes_vec(), value: value.as_bytes_vec() }
    }

    /// Creates a boolean attribute, one without a value.
    pub fn new_boolean(name: &str) -> (r: Attribute)
        ensures
            r@.name == encode_utf8(name@),
            r@.value == Seq::<u8>::empty(),
    {
        Attribute { name: name.as_bytes_vec(), value: Vec::new() }
    }

    /// Tests whether the attribute has no value.
    pub fn is_boolean(&self) -> (r: bool)
        ensures
            r == self@.is_boolean(),
    {
        self.value.len() == 0
    }

    /// The attribute's name as text.
    pub fn name(&self) -> (r: String)
        requires
            valid_utf8(self@.name),
        ensures
            r@ == decode_utf8(self@.name),
    {
        string_from_utf8(self.name.clone()).unwrap()
    }

    /// The attribute's value as text.
    pub fn value(&self) -> (r: String)
        requires
            valid_utf8(self@.value),
        ensures
            r@ == decode_utf8(self@.value),
    {
        string_from_utf8(self.value.clone()).unwrap()
    }

    /// The attribute's name as text, or `None` where the bytes are not UTF-8.
    pub fn name_checked(&self) -> (r: Option<String>)
        ensures
            r is Some <==> valid_utf8(self@.name),
            r matches Some(s) ==> s@ == decode_utf8(self@.name),
    {
        string_from_utf8(self.name.clone())
    }

    /// The attribute's value as text, or `None` where the bytes are not UTF-8.
    pub fn value_checked(&self) -> (r: Option<String>)
        ensures
            r is Some <==> valid_utf8(self@.value),
            r matches Some(s) ==> s@ == decode_utf8(self@.value),
    {
        string_from_utf8(self.value.clone())
    }
}

impl Attribute {
    /// The attribute as HTML text, or `None` where its name or its value is
    /// not UTF-8.
    pub fn render(&self) -> (r: Option<String>)
        ensures
            r is Some <==> self@.renderable(),
            r matches Some(text) ==> text@ == self@.html(),
    {
        let name = self.name_checked();
        let value = self.value_checked();
        match (name, value) {
            (Some(mut out), Some(value)) => {
                if !self.is_boolean() {
                    out.append("=\"");
                    out.append(value.as_str());
                    out.append("\"");
                }
                Some(out)
            },
            _ => None,
        }
    }
}

impl ToHTML for Attribute {
    open spec fn renderable(&self) -> bool {
        self@.renderable()
    }

    open spec fn html(&self) -> Seq<char> {
        self@.html()
    }

    fn to_html(&self) -> (r: String) {
        self.render().unwrap()
    }
}

} // verus!
