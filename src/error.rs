//! The errors that decoding can end in.
use vstd::prelude::*;
use std::sync::Arc;

verus! {

#[verifier::external_type_specification]
#[verifier::external_body]
pub struct ExIoError(std::io::Error);

/// The type tag that precedes each value on the wire.
#[derive(Clone, Copy, Debug, PartialEq, Eq, Structural)]
pub enum Tag {
    End,
    Byte,
    Short,
    Int,
    Long,
    Float,
    Double,
    ByteArray,
    String,
    List,
    Compound,
    IntArray,
    LongArray,
}

/// The tag that a byte stands for, if any.
pub open spec fn tag_of(b: u8) -> Option<Tag> {
    if b == 0 {
        Some(Tag::End)
    } else if b == 1 {
        Some(Tag::Byte)
    } else if b == 2 {
        Some(Tag::Short)
    } else if b == 3 {
        Some(Tag::Int)
    } else if b == 4 {
        Some(Tag::Long)
    } else if b == 5 {
        Some(Tag::Float)
    } else if b == 6 {
        Some(Tag::Double)
    } else if b == 7 {
        Some(Tag::ByteArray)
    } else if b == 8 {
        Some(Tag::String)
    } else if b == 9 {
        Some(Tag::List)
    } else if b == 10 {
        Some(Tag::Compound)
    } else if b == 11 {
        Some(Tag::IntArray)
    } else if b == 12 {
        Some(Tag::LongArray)
    } else {
        None
    }
}

impl Tag {
    /// The tag written as the byte `b`, or the invalid-tag error.
    pub fn from_byte(b: u8) -> (r: Result<Tag, Error>)
        ensures
            tag_of(b) is Some ==> r == Ok::<Tag, Error>(tag_of(b)->0),
            tag_of(b) is None ==> r == Err::<Tag, Error>(Error::InvalidTag(b)),
    {
        match b {
            0 => Ok(Tag::End),
            1 => Ok(Tag::Byte),
            2 => Ok(Tag::Short),
            3 => Ok(Tag::Int),
            4 => Ok(Tag::Long),
            5 => Ok(Tag::Float),
            6 => Ok(Tag::Double),
            7 => Ok(Tag::ByteArray),
            8 => Ok(Tag::String),
            9 => Ok(Tag::List),
            10 => Ok(Tag::Compound),
            11 => Ok(Tag::IntArray),
            12 => Ok(Tag::LongArray),
            _ => Err(Error::invalid_tag(b)),
        }
    }

    /// The byte that stands for this tag on the wire.
    pub fn to_byte(self) -> (r: u8)
        ensures
            tag_of(r) == Some(self),
    {
        match self {
            Tag::End => 0,
            Tag::Byte => 1,
            Tag::Short => 2,
            Tag::Int => 3,
            Tag::Long => 4,
            Tag::Float => 5,
            Tag::Double => 6,
            Tag::ByteArray => 7,
            Tag::String => 8,
            Tag::List => 9,
            Tag::Compound => 10,
            Tag::IntArray => 11,
            Tag::LongArray => 12,
        }
    }
}

/// Various errors that can occur during decoding.
#[derive(Debug, Clone)]
#[non_exhaustive]
pub enum Error {
    InvalidTag(u8),
    InvalidSize(i32),
    NoRootCompound,
    NonUnicodeString(Vec<u8>),
    UnexpectedTag { tag: Tag, expected: &'static str },
    UnexpectedList { elem_tag: Tag, size: i32, expected: &'static str },
    UnexpectedEof,
    IoError(Arc<std::io::Error>),
    Other(&'static str),
    Custom(String),
    ExpectedListFoundCompount(Option<Tag>),
    BadArrayLength(i32),
}

impl Error {
    pub fn invalid_tag(tag: u8) -> (r: Error)
        ensures
            r == Error::InvalidTag(tag),
    {
        Error::InvalidTag(tag)
    }

    pub fn invalid_size(size: i32) -> (r: Error)
        ensures
            r == Error::InvalidSize(size),
    {
        Error::InvalidSize(size)
    }

    pub fn no_root_compound() -> (r: Error)
        ensures
            r == Error::NoRootCompound,
    {
        Error::NoRootCompound
    }

    /// Keeps a copy of the bytes that were not valid UTF-8.
    pub fn nonunicode_string(data: &[u8]) -> (r: Error)
        ensures
            r is NonUnicodeString,
            r->NonUnicodeString_0@ == data@,
    {
        Error::NonUnicodeString(vstd::slice::slice_to_vec(data))
    }

    pub fn unexpected_eof() -> (r: Error)
        ensures
            r == Error::UnexpectedEof,
    {
        Error::UnexpectedEof
    }

    pub fn bespoke(msg: &'static str) -> (r: Error)
        ensures
            r == Error::Other(msg),
    {
        Error::Other(msg)
    }

    /// The error for a message that the decoding framework hands over.
    pub fn custom(msg: String) -> (r: Error)
        ensures
            r is Custom,
            r->Custom_0@ == msg@,
    {
        Error::Custom(msg)
    }

    /// Wraps an I/O failure so that copies of the error share it.
    pub fn io(e: std::io::Error) -> (r: Error)
        ensures
            r is IoError,
            *r->IoError_0 == e,
    {
        Error::IoError(Arc::new(e))
    }
}

} // verus!
