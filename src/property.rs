//! The key/value pair that a parsed line yields.
use vstd::prelude::*;
use crate::text::same_text;

verus! {

/// A key and a value taken from one line, both borrowed from it.
#[derive(Debug, Clone, Copy)]
pub struct Property<'a> {
    key: &'a str,
    value: &'a str,
}

impl<'a> View for Property<'a> {
    type V = (Seq<char>, Seq<char>);

    /// The key's characters and the value's characters.
    closed spec fn view(&self) -> (Seq<char>, Seq<char>) {
        (self.key@, self.value@)
    }
}

impl<'a> Property<'a> {
    /// A property whose key and value are both empty.
    pub fn new() -> (r: Self)
        ensures
            r@.0.len() == 0,
            r@.1.len() == 0,
    {
        let r = Property { key: "", value: "" };
        proof {
            reveal_strlit("");
        }
        r
    }

    /// A property with the given key and value.
    pub fn init(key: &'a str, value: &'a str) -> (r: Self)
        ensures
            r@ == (key@, value@),
    {
        Property { key, value }
    }

    /// A copy of the key.
    pub fn key(self) -> (r: String)
        ensures
            r@ == self@.0,
    {
        self.key.to_owned()
    }

    /// A copy of the value.
    pub fn value(self) -> (r: String)
        ensures
            r@ == self@.1,
    {
        self.value.to_owned()
    }
}

impl<'a> PartialEq for Property<'a> {
    fn eq(&self, other: &Property<'a>) -> (r: bool) {
        same_text(self.key, other.key) && same_text(self.value, other.value)
    }
}

impl<'a> vstd::std_specs::cmp::PartialEqSpecImpl for Property<'a> {
    open spec fn obeys_eq_spec() -> bool {
        true
    }

    open spec fn eq_spec(&self, other: &Property<'a>) -> bool {
        self@ == other@
    }
}

} // verus!
