use vstd::prelude::*;

verus! {

/// A value that can be written out as HTML text.
pub trait ToHTML {
    /// Whether every piece of text in the value can be decoded.
    spec fn renderable(&self) -> bool;

    /// The HTML text of the value.
    spec fn html(&self) -> Seq<char>;

    /// Formats the value as HTML text.
    fn to_html(&self) -> (r: String)
        requires
            self.renderable(),
        ensures
            r@ == self.html(),
    ;
}

} // verus!
