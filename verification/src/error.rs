//! What can go wrong while a stream is decoded.
use vstd::prelude::*;
use vstd::string::StringExecFns;
use crate::text::{bits_text, decimal, push_bits, push_unsigned};

verus! {

/// The ways in which a stream can be malformed.
#[derive(Clone, Copy, Debug, PartialEq, Eq, Structural)]
pub enum ErrorKind {
    /// A read needed more bytes than the buffer still holds.
    UnexpectedEof,
    /// The buffer does not start with the four magic bytes.
    InvalidMagic,
    /// A string reference names an index that has not been interned yet.
    InvalidStringReference,
    /// A control byte whose event kind or value type is not part of the format.
    UnsupportedTag(u8),
    /// A boolean payload byte other than 0 or 1.
    InvalidBooleanEncoding,
    /// An attribute record while no element is open.
    AttributeOutsideElement,
    /// A text or CDATA record while no element is open.
    TextOutsideElement,
    /// An end tag with no open element, or a second root element.
    UnbalancedTags,
    /// The end of the document while elements are still open.
    TruncatedDocument,
    /// The end of the document before any element was started.
    EmptyDocument,
}

/// A malformed stream: what was wrong, and the offset of the byte at which
/// it was noticed.
#[derive(Clone, Copy, Debug, PartialEq, Eq, Structural)]
pub struct DecodeError {
    pub kind: ErrorKind,
    pub offset: usize,
}

/// The error of kind `kind` noticed at `offset`.
pub open spec fn error_at(kind: ErrorKind, offset: int) -> DecodeError {
    DecodeError { kind, offset: offset as usize }
}

/// The error of a read that started at `offset` and ran out of bytes.
pub open spec fn eof_at(offset: int) -> DecodeError {
    error_at(ErrorKind::UnexpectedEof, offset)
}

/// Pairs the value of a successful read with the position after it.
pub open spec fn outcome<T>(r: Result<T, DecodeError>, next: int) -> Result<(T, int), DecodeError> {
    match r {
        Ok(v) => Ok((v, next)),
        Err(e) => Err(e),
    }
}

/// Pairs the view of what a successful read returned with the position after it.
pub open spec fn viewed<T: View>(r: Result<T, DecodeError>, next: int) -> Result<
    (T::V, int),
    DecodeError,
> {
    match r {
        Ok(v) => Ok((v@, next)),
        Err(e) => Err(e),
    }
}

/// What is wrong, in words.
pub open spec fn kind_text(kind: ErrorKind) -> Seq<char> {
    match kind {
        ErrorKind::UnexpectedEof => "unexpected end of input"@,
        ErrorKind::InvalidMagic => "invalid magic header"@,
        ErrorKind::InvalidStringReference => "invalid string reference"@,
        ErrorKind::UnsupportedTag(control) => "unsupported tag "@ + bits_text(control as nat, 2),
        ErrorKind::InvalidBooleanEncoding => "invalid boolean encoding"@,
        ErrorKind::AttributeOutsideElement => "attribute outside of an element"@,
        ErrorKind::TextOutsideElement => "text outside of an element"@,
        ErrorKind::UnbalancedTags => "unbalanced tags"@,
        ErrorKind::TruncatedDocument => "truncated document"@,
        ErrorKind::EmptyDocument => "empty document"@,
    }
}

/// What is wrong and where, in words.
pub open spec fn error_text(e: DecodeError) -> Seq<char> {
    kind_text(e.kind) + " at offset "@ + decimal(e.offset as int)
}

impl DecodeError {
    /// What is wrong and where, in words.
    pub fn message(&self) -> (text: String)
        ensures
            text@ == error_text(*self),
    {
        let mut text = String::new();
        match self.kind {
            ErrorKind::UnexpectedEof => {
                text.append("unexpected end of input");
            },
            ErrorKind::InvalidMagic => {
                text.append("invalid magic header");
            },
            ErrorKind::InvalidStringReference => {
                text.append("invalid string reference");
            },
            ErrorKind::UnsupportedTag(control) => {
                text.append("unsupported tag ");
                push_bits(&mut text, control as u64, 2);
            },
            ErrorKind::InvalidBooleanEncoding => {
                text.append("invalid boolean encoding");
            },
            ErrorKind::AttributeOutsideElement => {
                text.append("attribute outside of an element");
            },
            ErrorKind::TextOutsideElement => {
                text.append("text outside of an element");
            },
            ErrorKind::UnbalancedTags => {
                text.append("unbalanced tags");
            },
            ErrorKind::TruncatedDocument => {
                text.append("truncated document");
            },
            ErrorKind::EmptyDocument => {
                text.append("empty document");
            },
        }
        text.append(" at offset ");
        push_unsigned(&mut text, self.offset as u64);
        text
    }
}

/// An error of the conversion as a whole.
#[derive(Clone, Debug, PartialEq, Eq)]
pub enum AbxError {
    /// The input is not a well-formed stream.
    Decode(DecodeError),
    /// The request itself cannot be served; the text says why.
    ParseError(String),
}

/// What an error of the conversion is, with its text as a sequence of characters.
pub enum SpecAbxError {
    Decode(DecodeError),
    ParseError(Seq<char>),
}

impl View for AbxError {
    type V = SpecAbxError;

    open spec fn view(&self) -> SpecAbxError {
        match self {
            AbxError::Decode(e) => SpecAbxError::Decode(*e),
            AbxError::ParseError(text) => SpecAbxError::ParseError(text@),
        }
    }
}

/// The error in words.
pub open spec fn abx_error_text(e: SpecAbxError) -> Seq<char> {
    match e {
        SpecAbxError::Decode(e) => error_text(e),
        SpecAbxError::ParseError(text) => text,
    }
}

impl AbxError {
    /// The error in words.
    pub fn message(&self) -> (text: String)
        ensures
            text@ == abx_error_text(self@),
    {
        match self {
            AbxError::Decode(e) => e.message(),
            AbxError::ParseError(text) => text.clone(),
        }
    }
}

} // verus!
