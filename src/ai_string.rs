//! Immutable string values that compare by content.
use vstd::prelude::*;
use vstd::string::{StrSliceExecFns, StringExecFns};
use vstd::utf8::encode_utf8;

verus! {

/// An immutable string, compared by its characters.
#[derive(Debug)]
pub struct AtString {
    text: String,
}

impl View for AtString {
    type V = Seq<char>;

    closed spec fn view(&self) -> Seq<char> {
        self.text@
    }
}

proof fn lemma_encoding_empty(s: Seq<char>)
    ensures
        (encode_utf8(s).len() == 0) == (s.len() == 0),
{
    if s.len() > 0 {
        assert(encode_utf8(s) == vstd::utf8::encode_scalar(s[0] as u32) + encode_utf8(
            s.drop_first(),
        ));
    }
}

impl AtString {
    /// The string holding the characters of `s`.
    pub fn new(s: &str) -> (r: AtString)
        ensures
            r@ == s@,
    {
        AtString { text: <String as StringExecFns>::from_str(s) }
    }

    /// Length in bytes of the UTF-8 encoding.
    pub fn length(&self) -> (r: usize)
        ensures
            r == encode_utf8(self@).len(),
    {
        self.text.as_str().as_bytes_vec().len()
    }

    /// Whether the string has no characters.
    pub fn empty(&self) -> (r: bool)
        ensures
            r == (self@.len() == 0),
    {
        proof {
            lemma_encoding_empty(self@);
        }
        self.length() == 0
    }

    /// The characters, as a `String`.
    pub fn as_string(&self) -> (r: String)
        ensures
            r@ == self@,
    {
        self.text.clone()
    }
}

impl PartialEq for AtString {
    fn eq(&self, other: &AtString) -> (r: bool) {
        self.text == other.text
    }
}

impl vstd::std_specs::cmp::PartialEqSpecImpl for AtString {
    open spec fn obeys_eq_spec() -> bool {
        true
    }

    open spec fn eq_spec(&self, other: &AtString) -> bool {
        self@ == other@
    }
}

impl<'a> From<&'a str> for AtString {
    fn from(s: &'a str) -> (r: AtString) {
        AtString::new(s)
    }
}

impl<'a> vstd::std_specs::convert::FromSpecImpl<&'a str> for AtString {
    open spec fn obeys_from_spec() -> bool {
        false
    }

    open spec fn from_spec(s: &'a str) -> AtString {
        arbitrary()
    }
}

impl From<String> for AtString {
    fn from(s: String) -> (r: AtString) {
        AtString { text: s }
    }
}

impl vstd::std_specs::convert::FromSpecImpl<String> for AtString {
    open spec fn obeys_from_spec() -> bool {
        false
    }

    open spec fn from_spec(s: String) -> AtString {
        arbitrary()
    }
}

} // verus!
