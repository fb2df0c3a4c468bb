//! What a response body can be made of: byte slices and strings.

use vstd::prelude::*;
use vstd::utf8::encode_utf8;

verus! {

/// A value that can be written to the wire as bytes.
pub trait ToBytes {
    /// The bytes that the value stands for.
    spec fn bytes(&self) -> Seq<u8>;

    /// The bytes of the value: a slice as it is, a string in UTF-8.
    fn to_bytes(&self) -> (b: &[u8])
        ensures
            b@ == self.bytes(),
    ;
}

impl ToBytes for &[u8] {
    open spec fn bytes(&self) -> Seq<u8> {
        self@
    }

    fn to_bytes(&self) -> (b: &[u8]) {
        self
    }
}

impl ToBytes for &str {
    open spec fn bytes(&self) -> Seq<u8> {
        encode_utf8(self@)
    }

    fn to_bytes(&self) -> (b: &[u8]) {
        self.as_bytes()
    }
}

impl ToBytes for String {
    open spec fn bytes(&self) -> Seq<u8> {
        encode_utf8(self@)
    }

    fn to_bytes(&self) -> (b: &[u8]) {
        self.as_str().as_bytes()
    }
}

impl ToBytes for &String {
    open spec fn bytes(&self) -> Seq<u8> {
        encode_utf8(self@)
    }

    fn to_bytes(&self) -> (b: &[u8]) {
        self.as_str().as_bytes()
    }
}

} // verus!
