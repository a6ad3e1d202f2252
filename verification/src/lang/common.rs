//! Constants of the textual language.

use crate::lang::operations;
use vstd::prelude::*;

verus! {

/// A constant of the language: some bytes.
#[derive(Clone, Debug)]
pub struct Bytes {
    content: Vec<u8>,
}

impl View for Bytes {
    type V = Seq<u8>;

    closed spec fn view(&self) -> Seq<u8> {
        self.content@
    }
}

impl Bytes {
    pub fn from_i32(value: i32) -> (bytes: Bytes)
        ensures
            bytes@ == operations::i32_le(value),
    {
        Bytes { content: operations::bytes_from_i32(value) }
    }

    pub fn from_i64(value: i64) -> (bytes: Bytes)
        ensures
            bytes@ == operations::i64_le(value),
    {
        Bytes { content: operations::bytes_from_i64(value) }
    }

    pub fn from_bytes(value: Vec<u8>) -> (bytes: Bytes)
        ensures
            bytes@ == value@,
    {
        Bytes { content: value }
    }

    /// The bytes of the text `value` in UTF-8.
    pub fn from_string(value: String) -> (bytes: Bytes)
        ensures
            bytes@ == vstd::utf8::encode_utf8(value@),
    {
        Bytes { content: vstd::slice::slice_to_vec(value.as_str().as_bytes()) }
    }

    /// The text that the bytes are, where each of them is an ASCII letter or
    /// digit or ASCII white space.
    pub fn as_string(&self) -> (result: Option<String>)
        ensures
            result is Some <==> operations::all_plain(self@),
            result matches Some(text) ==> text@ == operations::ascii_text(self@),
    {
        operations::bytes_as_string(self.content.as_slice())
    }

    /// The number that the bytes stand for, where they are four.
    pub fn as_i32(&self) -> (result: Option<i32>)
        ensures
            result == if self@.len() == 4 {
                Some(operations::le_i32(self@))
            } else {
                None
            },
    {
        operations::bytes_as_i32(self.content.as_slice())
    }

    /// The number that the bytes stand for, where they are eight.
    pub fn as_i64(&self) -> (result: Option<i64>)
        ensures
            result == if self@.len() == 8 {
                Some(operations::le_i64(self@))
            } else {
                None
            },
    {
        operations::bytes_as_i64(self.content.as_slice())
    }

    /// The bytes in base 64.
    pub fn as_base64(&self) -> (text: String)
        ensures
            text@ == operations::base64_of(self@),
    {
        operations::bytes_as_base64(self.content.as_slice())
    }

    /// A text for the bytes, as readable as they allow.
    pub fn to_string(&self) -> (text: String)
        ensures
            operations::describes(self@, text),
    {
        operations::bytes_to_string(self.content.as_slice())
    }
}

} // verus!
