//! The table of strings that a stream builds up and refers back to.
use vstd::prelude::*;
use crate::cursor::{spec_read_string, spec_read_u16, ByteCursor};
use crate::error::{error_at, DecodeError, ErrorKind};

verus! {

/// What a pool is: the strings interned so far, in the order they came.
pub type PoolView = Seq<Seq<char>>;

/// The marker that stands where an index would, and announces a new string.
pub const NEW_STRING: u16 = 0xffff;

/// Pairs the view of what a successful read returned with the position and
/// the pool after it.
pub open spec fn pooled<T: View>(r: Result<T, DecodeError>, next: int, pool: PoolView) -> Result<
    (T::V, int, PoolView),
    DecodeError,
> {
    match r {
        Ok(v) => Ok((v@, next, pool)),
        Err(e) => Err(e),
    }
}

/// A string by the pool protocol: a 16-bit marker, which either announces a
/// new string that follows and is interned, or is the index of an earlier one.
pub open spec fn spec_read_interned(bytes: Seq<u8>, pos: int, pool: PoolView) -> Result<
    (Seq<char>, int, PoolView),
    DecodeError,
> {
    match spec_read_u16(bytes, pos) {
        Err(e) => Err(e),
        Ok((marker, p)) => if marker == NEW_STRING {
            match spec_read_string(bytes, p) {
                Err(e) => Err(e),
                Ok((s, q)) => Ok((s, q, pool.push(s))),
            }
        } else if (marker as int) < pool.len() {
            Ok((pool[marker as int], p, pool))
        } else {
            Err(error_at(ErrorKind::InvalidStringReference, pos))
        },
    }
}

/// An append-only table of strings, indexed in the order of insertion.
#[derive(Debug)]
pub struct StringPool {
    entries: Vec<String>,
}

impl View for StringPool {
    type V = PoolView;

    closed spec fn view(&self) -> PoolView {
        self.entries.deep_view()
    }
}

impl StringPool {
    /// An empty pool.
    pub fn new() -> (pool: Self)
        ensures
            pool@ == Seq::<Seq<char>>::empty(),
    {
        let pool = StringPool { entries: Vec::new() };
        pool
    }

    /// The number of strings interned so far.
    pub fn len(&self) -> (n: usize)
        ensures
            n == self@.len(),
    {
        self.entries.len()
    }

    /// Appends `s` and returns the index it got: the number of strings
    /// interned before it.
    pub fn intern(&mut self, s: String) -> (index: usize)
        ensures
            final(self)@ == old(self)@.push(s@),
            index == old(self)@.len(),
    {
        let index = self.entries.len();
        self.entries.push(s);
        index
    }

    /// The string interned under `index`, if one has been.
    pub fn resolve(&self, index: usize) -> (r: Result<&str, ErrorKind>)
        ensures
            index < self@.len() ==> r.is_ok() && r.unwrap()@ == self@[index as int],
            index >= self@.len() ==> r == Err::<&str, ErrorKind>(ErrorKind::InvalidStringReference),
    {
        if index < self.entries.len() {
            Ok(self.entries[index].as_str())
        } else {
            Err(ErrorKind::InvalidStringReference)
        }
    }
}

/// Reads a string by the pool protocol: an index resolves to the string
/// interned under it, and a new string is interned as it is read.
pub fn read_interned_string(cursor: &mut ByteCursor, pool: &mut StringPool) -> (r: Result<
    String,
    DecodeError,
>)
    ensures
        final(cursor)@.bytes == old(cursor)@.bytes,
        pooled(r, final(cursor)@.pos, final(pool)@) == spec_read_interned(
            old(cursor)@.bytes,
            old(cursor)@.pos,
            old(pool)@,
        ),
{
    let start = cursor.position();
    let marker = cursor.read_u16()?;
    if marker == NEW_STRING {
        let s = cursor.read_length_prefixed_string()?;
        pool.intern(s.clone());
        Ok(s)
    } else {
        match pool.resolve(marker as usize) {
            Ok(s) => Ok(s.to_owned()),
            Err(kind) => Err(DecodeError { kind, offset: start }),
        }
    }
}

} // verus!
