//! The whole pass: header, records, tree.
use vstd::prelude::*;
use crate::cursor::{spec_read_bytes, ByteCursor};
use crate::error::{error_at, DecodeError, ErrorKind};
use crate::pool::{spec_read_interned, PoolView, StringPool};
use crate::token::{next_token, spec_next_token, spec_token_body, EventKind};
use crate::tree::{SpecBuilder, SpecNode, SpecStep, Step, TreeBuilder, XmlNode};
use crate::value::{spec_decode_value, spec_read_strings, ValueType};

verus! {

/// The four bytes that every stream starts with: `ABX` and a zero byte.
pub open spec fn magic() -> Seq<u8> {
    seq![0x41u8, 0x42u8, 0x58u8, 0x00u8]
}

/// A string read by the pool protocol ends after it began, inside the
/// buffer, and leaves the pool no shorter.
pub proof fn lemma_interned_advances(bytes: Seq<u8>, pos: int, pool: PoolView)
    requires
        0 <= pos,
    ensures
        match spec_read_interned(bytes, pos, pool) {
            Ok((_, next, grown)) => pos < next <= bytes.len() && pool.len() <= grown.len(),
            Err(e) => pos <= bytes.len() <= usize::MAX ==> pos <= e.offset <= bytes.len(),
        },
{
}

/// Strings read one after another end no earlier than they began.
pub proof fn lemma_strings_advance(
    bytes: Seq<u8>,
    pos: int,
    pool: PoolView,
    n: nat,
    acc: Seq<Seq<char>>,
)
    requires
        0 <= pos <= bytes.len(),
    ensures
        match spec_read_strings(bytes, pos, pool, n, acc) {
            Ok((_, next, grown)) => pos <= next <= bytes.len() && pool.len() <= grown.len(),
            Err(e) => pos <= bytes.len() <= usize::MAX ==> pos <= e.offset <= bytes.len(),
        },
    decreases n,
{
    if n > 0 {
        lemma_interned_advances(bytes, pos, pool);
        match spec_read_interned(bytes, pos, pool) {
            Ok((s, next, grown)) => {
                lemma_strings_advance(bytes, next, grown, (n - 1) as nat, acc.push(s));
            },
            Err(_) => {},
        }
    }
}

/// A payload ends no earlier than it began, inside the buffer.
pub proof fn lemma_value_advances(ty: ValueType, bytes: Seq<u8>, pos: int, pool: PoolView)
    requires
        0 <= pos <= bytes.len(),
    ensures
        match spec_decode_value(ty, bytes, pos, pool) {
            Ok((_, next, grown)) => pos <= next <= bytes.len() && pool.len() <= grown.len(),
            Err(e) => pos <= bytes.len() <= usize::MAX ==> pos <= e.offset <= bytes.len(),
        },
{
    if ty == ValueType::StringArray && pos + 2 <= bytes.len() {
        lemma_strings_advance(
            bytes,
            pos + 2,
            pool,
            crate::cursor::u16_at(bytes, pos) as u16 as nat,
            Seq::empty(),
        );
    }
}

/// A record takes at least its control byte, and ends inside the buffer.
pub proof fn lemma_token_advances(bytes: Seq<u8>, pos: int, pool: PoolView)
    requires
        0 <= pos,
    ensures
        match spec_next_token(bytes, pos, pool) {
            Ok((_, next, grown)) => pos < next <= bytes.len() && pool.len() <= grown.len(),
            Err(e) => pos <= bytes.len() <= usize::MAX ==> pos <= e.offset <= bytes.len(),
        },
{
    if pos < bytes.len() {
        match crate::token::spec_split_control(bytes[pos]) {
            Some((kind, ty)) => {
                if kind == EventKind::Attribute {
                    lemma_interned_advances(bytes, pos + 1, pool);
                    match spec_read_interned(bytes, pos + 1, pool) {
                        Ok((_, p, grown)) => {
                            lemma_value_advances(ty, bytes, p, grown);
                        },
                        Err(_) => {},
                    }
                }
            },
            None => {},
        }
    }
}

/// The records from `pos` on, fed one by one to the machine in state
/// `builder`, up to the end of the document: its root and the offset just
/// after the end-of-document record, or the first error with the offset of
/// the record that caused it.
pub open spec fn spec_run(bytes: Seq<u8>, pos: int, pool: PoolView, builder: SpecBuilder) -> Result<
    (SpecNode, int),
    DecodeError,
>
    decreases bytes.len() - pos,
    when 0 <= pos
    via spec_run_decreases
{
    match spec_next_token(bytes, pos, pool) {
        Err(e) => Err(e),
        Ok((token, next, grown)) => match builder.apply(token) {
            Err(kind) => Err(error_at(kind, pos)),
            Ok(SpecStep::Finished(root)) => Ok((root, next)),
            Ok(SpecStep::Continue(state)) => spec_run(bytes, next, grown, state),
        },
    }
}

#[via_fn]
proof fn spec_run_decreases(bytes: Seq<u8>, pos: int, pool: PoolView, builder: SpecBuilder) {
    lemma_token_advances(bytes, pos, pool);
}

/// What a buffer decodes to, and where its document ends: the header must
/// be there, then the records are run from an empty pool and an empty machine.
pub open spec fn spec_decode_end(bytes: Seq<u8>) -> Result<(SpecNode, int), DecodeError> {
    match spec_read_bytes(bytes, 0, 4) {
        Err(e) => Err(e),
        Ok((header, next)) => if header == magic() {
            spec_run(bytes, next, Seq::empty(), SpecBuilder::empty())
        } else {
            Err(error_at(ErrorKind::InvalidMagic, 0))
        },
    }
}

/// What a buffer decodes to: the root of its document, or the first error.
pub open spec fn spec_decode(bytes: Seq<u8>) -> Result<SpecNode, DecodeError> {
    match spec_decode_end(bytes) {
        Ok((root, _)) => Ok(root),
        Err(e) => Err(e),
    }
}

/// The view of what a decoding returned.
pub open spec fn tree_outcome(r: Result<XmlNode, DecodeError>) -> Result<SpecNode, DecodeError> {
    match r {
        Ok(root) => Ok(root@),
        Err(e) => Err(e),
    }
}

/// Whether `header` holds the four magic bytes.
pub fn is_magic(header: &[u8]) -> (b: bool)
    ensures
        b == (header@ == magic()),
{
    if header.len() != 4 {
        return false;
    }
    let b = header[0] == 0x41 && header[1] == 0x42 && header[2] == 0x58 && header[3] == 0x00;
    proof {
        if b {
            assert(header@ =~= magic());
        }
    }
    b
}

/// Decodes a whole buffer into the tree of its document.
///
/// The result is what `spec_decode` says of the bytes, and of nothing else:
/// the same bytes give the same tree or the same error.
pub fn decode(bytes: &[u8]) -> (r: Result<XmlNode, DecodeError>)
    ensures
        tree_outcome(r) == spec_decode(bytes@),
        r matches Ok(root) ==> root@ is Element,
        r matches Err(e) ==> e.offset <= bytes@.len(),
{
    proof {
        crate::laws::law_every_input_is_answered(bytes@);
    }
    let mut cursor = ByteCursor::new(bytes);
    let header = cursor.read_bytes(4)?;
    if !is_magic(header) {
        return Err(DecodeError { kind: ErrorKind::InvalidMagic, offset: 0 });
    }
    let mut pool = StringPool::new();
    let mut builder = TreeBuilder::new();
    loop
        invariant
            cursor@.bytes == bytes@,
            0 <= cursor@.pos,
            spec_run(bytes@, cursor@.pos, pool@, builder@) == spec_decode_end(bytes@),
        decreases bytes@.len() - cursor@.pos,
    {
        let start = cursor.position();
        proof {
            lemma_token_advances(bytes@, start as int, pool@);
        }
        let token = next_token(&mut cursor, &mut pool)?;
        match builder.apply(token) {
            Err(kind) => {
                return Err(DecodeError { kind, offset: start });
            },
            Ok(Step::Finished(root)) => {
                return Ok(root);
            },
            Ok(Step::Continue(state)) => {
                builder = state;
            },
        }
    }
}

} // verus!
