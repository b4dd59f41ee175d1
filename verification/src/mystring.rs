//! A string held as its UTF-8 bytes.

use vstd::prelude::*;

verus! {

use vstd::string::StrSliceExecFns;

/// A string, held as the vector of its UTF-8 bytes.
#[derive(Debug)]
pub struct MyString {
    vec: Vec<u8>,
}

impl MyString {
    /// The bytes held.
    pub closed spec fn view(&self) -> Seq<u8> {
        self.vec@
    }

    /// An empty string.
    pub fn new() -> (s: MyString)
        ensures
            s@ == Seq::<u8>::empty(),
    {
        MyString { vec: Vec::new() }
    }

    /// The string holding the UTF-8 bytes of `value`.
    pub fn from(value: &str) -> (s: MyString)
        ensures
            s@ == vstd::utf8::encode_utf8(value@),
    {
        MyString { vec: value.as_bytes_vec() }
    }

    /// How many bytes the string holds.
    pub fn len(&self) -> (n: usize)
        ensures
            n == self@.len(),
    {
        self.vec.len()
    }
}

} // verus!
