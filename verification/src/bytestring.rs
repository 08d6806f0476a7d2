//! A plain byte string with text-minded accessors.
//!
//! Shell output is bytes that are usually, but not always, UTF-8; this
//! type carries such bytes and offers the checked and the lossy readings.

use vstd::prelude::*;

use crate::errors::Error;
use crate::strings::trim_spec;
use crate::utf8::{lossy_utf8_spec, valid_utf8_seq};

verus! {

/// A byte string: arbitrary bytes, shown as text on request.
pub struct ByteString {
    /// The bytes themselves.
    pub data: Vec<u8>,
}

impl View for ByteString {
    type V = Seq<u8>;

    closed spec fn view(&self) -> Seq<u8> {
        self.data@
    }
}

impl ByteString {
    /// Copy `data` into a new byte string.
    pub fn new(data: &[u8]) -> (r: Self)
        ensures
            r@ == data@,
    {
        ByteString { data: vstd::slice::slice_to_vec(data) }
    }

    /// The bytes when they are UTF-8, and the encoding error otherwise.
    pub fn to_utf8(&self) -> (r: Result<Vec<u8>, Error>)
        ensures
            match r {
                Ok(v) => valid_utf8_seq(self@) && v@ == self@,
                Err(e) => !valid_utf8_seq(self@) && e is NotUtf8,
            },
    {
        if crate::utf8::is_utf8(self.data.as_slice()) {
            Ok(self.data.clone())
        } else {
            Err(Error::NotUtf8)
        }
    }

    /// The bytes as text, with invalid runs shown as the replacement
    /// character.
    pub fn to_utf8_lossy(&self) -> (r: Vec<u8>)
        ensures
            r@ == lossy_utf8_spec(self@),
    {
        crate::utf8::utf8_lossy(self.data.as_slice())
    }

    /// The bytes with leading and trailing ASCII whitespace removed.
    pub fn trim_ascii(&self) -> (r: Vec<u8>)
        ensures
            r@ == trim_spec(self@),
    {
        crate::strings::trim_ascii(self.data.as_slice())
    }
}

impl PartialEq for ByteString {
    /// Byte strings are equal when their bytes are.
    fn eq(&self, other: &Self) -> (r: bool) {
        let r = crate::strings::bytes_eq(self.data.as_slice(), other.data.as_slice());
        r
    }
}

impl vstd::std_specs::cmp::PartialEqSpecImpl for ByteString {
    open spec fn obeys_eq_spec() -> bool {
        true
    }

    open spec fn eq_spec(&self, other: &Self) -> bool {
        self@ == other@
    }
}

} // verus!
