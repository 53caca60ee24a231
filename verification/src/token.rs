//! One record of the stream at a time.
use vstd::prelude::*;
use crate::cursor::{spec_read_string, spec_read_u8, ByteCursor};
use crate::error::{error_at, DecodeError, ErrorKind};
use crate::pool::{pooled, read_interned_string, spec_read_interned, PoolView, StringPool};
use crate::value::{spec_decode_value, SpecValue, TypedValue, ValueType};

verus! {

/// What a record is about. The low four bits of a control byte name it.
#[derive(Clone, Copy, Debug, PartialEq, Eq, Structural)]
pub enum EventKind {
    EndOfDocument,
    StartTag,
    EndTag,
    Text,
    CData,
    Attribute,
}

impl EventKind {
    /// The event that the four-bit code `code` stands for.
    pub open spec fn spec_from_code(code: u8) -> Option<EventKind> {
        if code == 1 {
            Some(EventKind::EndOfDocument)
        } else if code == 2 {
            Some(EventKind::StartTag)
        } else if code == 3 {
            Some(EventKind::EndTag)
        } else if code == 4 {
            Some(EventKind::Text)
        } else if code == 5 {
            Some(EventKind::CData)
        } else if code == 15 {
            Some(EventKind::Attribute)
        } else {
            None
        }
    }

    /// The four-bit code of the event.
    pub open spec fn spec_code(self) -> u8 {
        match self {
            EventKind::EndOfDocument => 1,
            EventKind::StartTag => 2,
            EventKind::EndTag => 3,
            EventKind::Text => 4,
            EventKind::CData => 5,
            EventKind::Attribute => 15,
        }
    }

    /// The event that the four-bit code `code` stands for, if any.
    pub fn from_code(code: u8) -> (r: Option<EventKind>)
        ensures
            r == Self::spec_from_code(code),
    {
        match code {
            1 => Some(EventKind::EndOfDocument),
            2 => Some(EventKind::StartTag),
            3 => Some(EventKind::EndTag),
            4 => Some(EventKind::Text),
            5 => Some(EventKind::CData),
            15 => Some(EventKind::Attribute),
            _ => None,
        }
    }

    /// The four-bit code of the event.
    pub fn code(self) -> (c: u8)
        ensures
            c == self.spec_code(),
            Self::spec_from_code(c) == Some(self),
    {
        match self {
            EventKind::EndOfDocument => 1,
            EventKind::StartTag => 2,
            EventKind::EndTag => 3,
            EventKind::Text => 4,
            EventKind::CData => 5,
            EventKind::Attribute => 15,
        }
    }
}

/// The two fields of a control byte: the event in its low four bits, the
/// value type in its high four bits. Both must be known.
pub open spec fn spec_split_control(control: u8) -> Option<(EventKind, ValueType)> {
    match (EventKind::spec_from_code(control % 16), ValueType::spec_from_code(control / 16)) {
        (Some(kind), Some(ty)) => Some((kind, ty)),
        _ => None,
    }
}

/// Splits a control byte into its event and its value type.
pub fn split_control(control: u8) -> (r: Option<(EventKind, ValueType)>)
    ensures
        r == spec_split_control(control),
{
    match (EventKind::from_code(control % 16), ValueType::from_code(control / 16)) {
        (Some(kind), Some(ty)) => Some((kind, ty)),
        _ => None,
    }
}

/// A decoded record.
#[derive(Clone, Debug, PartialEq, Eq)]
pub enum Token {
    StartTag(String),
    Attribute(String, TypedValue),
    Text(String),
    CData(String),
    EndTag,
    EndOfDocument,
}

/// What a record is, with its strings as sequences of characters.
pub enum SpecToken {
    StartTag(Seq<char>),
    Attribute(Seq<char>, SpecValue),
    Text(Seq<char>),
    CData(Seq<char>),
    EndTag,
    EndOfDocument,
}

impl View for Token {
    type V = SpecToken;

    open spec fn view(&self) -> SpecToken {
        match self {
            Token::StartTag(name) => SpecToken::StartTag(name@),
            Token::Attribute(name, value) => SpecToken::Attribute(name@, value@),
            Token::Text(content) => SpecToken::Text(content@),
            Token::CData(content) => SpecToken::CData(content@),
            Token::EndTag => SpecToken::EndTag,
            Token::EndOfDocument => SpecToken::EndOfDocument,
        }
    }
}

/// What follows the control byte of a record of kind `kind`.
pub open spec fn spec_token_body(
    kind: EventKind,
    ty: ValueType,
    bytes: Seq<u8>,
    pos: int,
    pool: PoolView,
) -> Result<(SpecToken, int, PoolView), DecodeError> {
    match kind {
        EventKind::StartTag => match spec_read_interned(bytes, pos, pool) {
            Err(e) => Err(e),
            Ok((name, p, grown)) => Ok((SpecToken::StartTag(name), p, grown)),
        },
        EventKind::Attribute => match spec_read_interned(bytes, pos, pool) {
            Err(e) => Err(e),
            Ok((name, p, grown)) => match spec_decode_value(ty, bytes, p, grown) {
                Err(e) => Err(e),
                Ok((value, q, grown2)) => Ok((SpecToken::Attribute(name, value), q, grown2)),
            },
        },
        EventKind::Text => match spec_read_string(bytes, pos) {
            Err(e) => Err(e),
            Ok((content, p)) => Ok((SpecToken::Text(content), p, pool)),
        },
        EventKind::CData => match spec_read_string(bytes, pos) {
            Err(e) => Err(e),
            Ok((content, p)) => Ok((SpecToken::CData(content), p, pool)),
        },
        EventKind::EndTag => Ok((SpecToken::EndTag, pos, pool)),
        EventKind::EndOfDocument => Ok((SpecToken::EndOfDocument, pos, pool)),
    }
}

/// The record at `pos`: a control byte, then what its event asks for.
pub open spec fn spec_next_token(bytes: Seq<u8>, pos: int, pool: PoolView) -> Result<
    (SpecToken, int, PoolView),
    DecodeError,
> {
    match spec_read_u8(bytes, pos) {
        Err(e) => Err(e),
        Ok((control, p)) => match spec_split_control(control) {
            None => Err(error_at(ErrorKind::UnsupportedTag(control), pos)),
            Some((kind, ty)) => spec_token_body(kind, ty, bytes, p, pool),
        },
    }
}

/// Reads the next record.
pub fn next_token(cursor: &mut ByteCursor, pool: &mut StringPool) -> (r: Result<Token, DecodeError>)
    ensures
        final(cursor)@.bytes == old(cursor)@.bytes,
        pooled(r, final(cursor)@.pos, final(pool)@) == spec_next_token(
            old(cursor)@.bytes,
            old(cursor)@.pos,
            old(pool)@,
        ),
{
    let start = cursor.position();
    let control = cursor.read_u8()?;
    let (kind, ty) = match split_control(control) {
        Some(fields) => fields,
        None => {
            return Err(DecodeError { kind: ErrorKind::UnsupportedTag(control), offset: start });
        },
    };
    match kind {
        EventKind::StartTag => {
            let name = read_interned_string(cursor, pool)?;
            Ok(Token::StartTag(name))
        },
        EventKind::Attribute => {
            let name = read_interned_string(cursor, pool)?;
            let value = TypedValue::decode(ty, cursor, pool)?;
            Ok(Token::Attribute(name, value))
        },
        EventKind::Text => {
            let content = cursor.read_length_prefixed_string()?;
            Ok(Token::Text(content))
        },
        EventKind::CData => {
            let content = cursor.read_length_prefixed_string()?;
            Ok(Token::CData(content))
        },
        EventKind::EndTag => Ok(Token::EndTag),
        EventKind::EndOfDocument => Ok(Token::EndOfDocument),
    }
}

} // verus!
