//! Decoder for Android Binary XML (ABX): turns the tokenised binary stream
//! into an XML tree and into XML text.
//!
//! # The stream
//!
//! A stream starts with the four bytes `ABX\0`. Records follow. Each record
//! starts with a control byte: its low four bits name the event, its high
//! four bits the type of the value that the record carries. Both must be
//! known, whatever the event.
//!
//! | event | code | what follows the control byte |
//! |---|---|---|
//! | end of document | 1 | nothing |
//! | start tag | 2 | the name, by the pool protocol |
//! | end tag | 3 | nothing |
//! | text | 4 | a length-prefixed string |
//! | CDATA | 5 | a length-prefixed string |
//! | attribute | 15 | the name, by the pool protocol, then the value |
//!
//! | value type | code | payload |
//! |---|---|---|
//! | null | 1 | nothing |
//! | string | 2 | a string, by the pool protocol |
//! | string array | 3 | a 16-bit count, then that many strings, by the pool protocol |
//! | bytes | 4 | a 16-bit length, then the bytes |
//! | int32 | 6 | four bytes, two's complement |
//! | int64 | 8 | eight bytes, two's complement |
//! | float | 10 | four bytes, IEEE-754 |
//! | double | 11 | eight bytes, IEEE-754 |
//! | boolean | 12 | one byte, 0 or 1 |
//!
//! Numbers are big-endian. A length-prefixed string is a 16-bit length and
//! that many bytes of UTF-8; bytes that are not UTF-8 are read with
//! replacement characters. The pool protocol is a 16-bit marker: `0xffff`
//! announces a length-prefixed string, which is interned under the next free
//! index; any other marker is the index of a string interned before.
//!
//! # The parts
//!
//! The stream is read by a bounds-checked [`cursor::ByteCursor`]; names and
//! string values go through the [`pool::StringPool`]; [`token::next_token`]
//! reads one record at a time; [`tree::TreeBuilder`] nests the records into
//! elements; [`decoder::decode`] ties them together and [`writer`] renders
//! the finished tree as text. [`encoder`] states how a tree is written as a
//! stream and proves that decoding inverts it; [`laws`] holds what is proved
//! of every stream. [`cli`] is the command-line tool without its input and
//! output.
//!
//! The library does no floating-point arithmetic: the two floating-point
//! kinds are kept as their bit patterns and written in hexadecimal
//! floating-point notation, which names every value exactly.
pub mod text;
pub mod error;
pub mod cursor;
pub mod pool;
pub mod value;
pub mod token;
pub mod tree;
pub mod decoder;
pub mod writer;
pub mod converter;
pub mod cli;
pub mod laws;
pub mod encoder;

pub use error::{AbxError, DecodeError, ErrorKind};
pub use cursor::ByteCursor;
pub use pool::StringPool;
pub use value::{TypedValue, ValueType};
pub use token::{next_token, EventKind, Token};
pub use tree::{Attribute, Element, Step, TreeBuilder, XmlNode};
pub use decoder::decode;
pub use writer::to_xml;
pub use converter::AbxToXmlConverter;
pub use cli::{Cli, CliArgs, Formatted, Output};
