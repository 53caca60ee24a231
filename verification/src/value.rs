//! Typed attribute values and how each is laid out in the stream.
use vstd::prelude::*;
use vstd::slice::slice_to_vec;
use vstd::string::StringExecFns;
use crate::cursor::{
    spec_read_block, spec_read_i32, spec_read_i64, spec_read_u16, spec_read_u32, spec_read_u64,
    spec_read_u8, ByteCursor,
};
use crate::error::{error_at, DecodeError, ErrorKind};
use crate::pool::{pooled, read_interned_string, spec_read_interned, PoolView, StringPool};
use crate::text::{
    decimal, double_text, hex_text, joined, push_decimal, push_double, push_hex, push_joined,
    push_single, single_text,
};

verus! {

/// The type that a control byte declares for the payload that follows it.
#[derive(Clone, Copy, Debug, PartialEq, Eq, Structural)]
pub enum ValueType {
    Null,
    String,
    StringArray,
    Bytes,
    Int32,
    Int64,
    Float,
    Double,
    Boolean,
}

impl ValueType {
    /// The type that the four-bit code `code` stands for.
    pub open spec fn spec_from_code(code: u8) -> Option<ValueType> {
        if code == 1 {
            Some(ValueType::Null)
        } else if code == 2 {
            Some(ValueType::String)
        } else if code == 3 {
            Some(ValueType::StringArray)
        } else if code == 4 {
            Some(ValueType::Bytes)
        } else if code == 6 {
            Some(ValueType::Int32)
        } else if code == 8 {
            Some(ValueType::Int64)
        } else if code == 10 {
            Some(ValueType::Float)
        } else if code == 11 {
            Some(ValueType::Double)
        } else if code == 12 {
            Some(ValueType::Boolean)
        } else {
            None
        }
    }

    /// The four-bit code of the type.
    pub open spec fn spec_code(self) -> u8 {
        match self {
            ValueType::Null => 1,
            ValueType::String => 2,
            ValueType::StringArray => 3,
            ValueType::Bytes => 4,
            ValueType::Int32 => 6,
            ValueType::Int64 => 8,
            ValueType::Float => 10,
            ValueType::Double => 11,
            ValueType::Boolean => 12,
        }
    }

    /// The type that the four-bit code `code` stands for, if any.
    pub fn from_code(code: u8) -> (r: Option<ValueType>)
        ensures
            r == Self::spec_from_code(code),
    {
        match code {
            1 => Some(ValueType::Null),
            2 => Some(ValueType::String),
            3 => Some(ValueType::StringArray),
            4 => Some(ValueType::Bytes),
            6 => Some(ValueType::Int32),
            8 => Some(ValueType::Int64),
            10 => Some(ValueType::Float),
            11 => Some(ValueType::Double),
            12 => Some(ValueType::Boolean),
            _ => None,
        }
    }

    /// The four-bit code of the type.
    pub fn code(self) -> (c: u8)
        ensures
            c == self.spec_code(),
            Self::spec_from_code(c) == Some(self),
    {
        match self {
            ValueType::Null => 1,
            ValueType::String => 2,
            ValueType::StringArray => 3,
            ValueType::Bytes => 4,
            ValueType::Int32 => 6,
            ValueType::Int64 => 8,
            ValueType::Float => 10,
            ValueType::Double => 11,
            ValueType::Boolean => 12,
        }
    }
}

/// A decoded value. The two floating-point kinds hold the IEEE-754 bit
/// pattern that the stream carries.
#[derive(Debug, PartialEq, Eq)]
pub enum TypedValue {
    Null,
    Boolean(bool),
    Int32(i32),
    Int64(i64),
    Float(u32),
    Double(u64),
    String(String),
    StringArray(Vec<String>),
    Bytes(Vec<u8>),
}

/// What a value is, with its strings as sequences of characters.
pub enum SpecValue {
    Null,
    Boolean(bool),
    Int32(i32),
    Int64(i64),
    Float(u32),
    Double(u64),
    String(Seq<char>),
    StringArray(Seq<Seq<char>>),
    Bytes(Seq<u8>),
}

impl SpecValue {
    /// The type under which the value is declared in a stream.
    pub open spec fn value_type(self) -> ValueType {
        match self {
            SpecValue::Null => ValueType::Null,
            SpecValue::Boolean(_) => ValueType::Boolean,
            SpecValue::Int32(_) => ValueType::Int32,
            SpecValue::Int64(_) => ValueType::Int64,
            SpecValue::Float(_) => ValueType::Float,
            SpecValue::Double(_) => ValueType::Double,
            SpecValue::String(_) => ValueType::String,
            SpecValue::StringArray(_) => ValueType::StringArray,
            SpecValue::Bytes(_) => ValueType::Bytes,
        }
    }
}

/// The text form of a value: nothing for null, `true` or `false`, a decimal
/// integer, a floating-point number in hexadecimal notation, the string
/// itself, the strings of an array with commas between them, two
/// hexadecimal digits for each byte.
pub open spec fn value_text(value: SpecValue) -> Seq<char> {
    match value {
        SpecValue::Null => Seq::empty(),
        SpecValue::Boolean(b) => if b {
            "true"@
        } else {
            "false"@
        },
        SpecValue::Int32(v) => decimal(v as int),
        SpecValue::Int64(v) => decimal(v as int),
        SpecValue::Float(bits) => single_text(bits),
        SpecValue::Double(bits) => double_text(bits),
        SpecValue::String(s) => s,
        SpecValue::StringArray(items) => joined(items, ','),
        SpecValue::Bytes(b) => hex_text(b),
    }
}

impl View for TypedValue {
    type V = SpecValue;

    open spec fn view(&self) -> SpecValue {
        match self {
            TypedValue::Null => SpecValue::Null,
            TypedValue::Boolean(b) => SpecValue::Boolean(*b),
            TypedValue::Int32(v) => SpecValue::Int32(*v),
            TypedValue::Int64(v) => SpecValue::Int64(*v),
            TypedValue::Float(bits) => SpecValue::Float(*bits),
            TypedValue::Double(bits) => SpecValue::Double(*bits),
            TypedValue::String(s) => SpecValue::String(s@),
            TypedValue::StringArray(v) => SpecValue::StringArray(v.deep_view()),
            TypedValue::Bytes(b) => SpecValue::Bytes(b@),
        }
    }
}

/// `n` more strings by the pool protocol, after those in `acc`.
pub open spec fn spec_read_strings(
    bytes: Seq<u8>,
    pos: int,
    pool: PoolView,
    n: nat,
    acc: Seq<Seq<char>>,
) -> Result<(Seq<Seq<char>>, int, PoolView), DecodeError>
    decreases n,
{
    if n == 0 {
        Ok((acc, pos, pool))
    } else {
        match spec_read_interned(bytes, pos, pool) {
            Err(e) => Err(e),
            Ok((s, p, grown)) => spec_read_strings(bytes, p, grown, (n - 1) as nat, acc.push(s)),
        }
    }
}

/// The strings that were read, as one value.
pub open spec fn as_array(r: Result<(Seq<Seq<char>>, int, PoolView), DecodeError>) -> Result<
    (SpecValue, int, PoolView),
    DecodeError,
> {
    match r {
        Err(e) => Err(e),
        Ok((items, q, grown)) => Ok((SpecValue::StringArray(items), q, grown)),
    }
}

/// A one-byte boolean: 0 or 1, nothing else.
pub open spec fn spec_read_bool(bytes: Seq<u8>, pos: int) -> Result<(bool, int), DecodeError> {
    match spec_read_u8(bytes, pos) {
        Err(e) => Err(e),
        Ok((b, p)) => if b == 0 {
            Ok((false, p))
        } else if b == 1 {
            Ok((true, p))
        } else {
            Err(error_at(ErrorKind::InvalidBooleanEncoding, pos))
        },
    }
}

/// The payload of a value of type `ty` at `pos`.
pub open spec fn spec_decode_value(ty: ValueType, bytes: Seq<u8>, pos: int, pool: PoolView) -> Result<
    (SpecValue, int, PoolView),
    DecodeError,
> {
    match ty {
        ValueType::Null => Ok((SpecValue::Null, pos, pool)),
        ValueType::Boolean => match spec_read_bool(bytes, pos) {
            Err(e) => Err(e),
            Ok((b, p)) => Ok((SpecValue::Boolean(b), p, pool)),
        },
        ValueType::Int32 => match spec_read_i32(bytes, pos) {
            Err(e) => Err(e),
            Ok((v, p)) => Ok((SpecValue::Int32(v), p, pool)),
        },
        ValueType::Int64 => match spec_read_i64(bytes, pos) {
            Err(e) => Err(e),
            Ok((v, p)) => Ok((SpecValue::Int64(v), p, pool)),
        },
        ValueType::Float => match spec_read_u32(bytes, pos) {
            Err(e) => Err(e),
            Ok((v, p)) => Ok((SpecValue::Float(v), p, pool)),
        },
        ValueType::Double => match spec_read_u64(bytes, pos) {
            Err(e) => Err(e),
            Ok((v, p)) => Ok((SpecValue::Double(v), p, pool)),
        },
        ValueType::String => match spec_read_interned(bytes, pos, pool) {
            Err(e) => Err(e),
            Ok((s, p, grown)) => Ok((SpecValue::String(s), p, grown)),
        },
        ValueType::StringArray => match spec_read_u16(bytes, pos) {
            Err(e) => Err(e),
            Ok((n, p)) => as_array(spec_read_strings(bytes, p, pool, n as nat, Seq::empty())),
        },
        ValueType::Bytes => match spec_read_block(bytes, pos) {
            Err(e) => Err(e),
            Ok((b, p)) => Ok((SpecValue::Bytes(b), p, pool)),
        },
    }
}

/// Reads a one-byte boolean.
pub fn read_bool(cursor: &mut ByteCursor) -> (r: Result<bool, DecodeError>)
    ensures
        final(cursor)@.bytes == old(cursor)@.bytes,
        crate::error::outcome(r, final(cursor)@.pos) == spec_read_bool(
            old(cursor)@.bytes,
            old(cursor)@.pos,
        ),
{
    let start = cursor.position();
    let b = cursor.read_u8()?;
    if b == 0 {
        Ok(false)
    } else if b == 1 {
        Ok(true)
    } else {
        Err(DecodeError { kind: ErrorKind::InvalidBooleanEncoding, offset: start })
    }
}

/// Reads a 16-bit count and that many strings by the pool protocol.
pub fn read_string_array(cursor: &mut ByteCursor, pool: &mut StringPool) -> (r: Result<
    Vec<String>,
    DecodeError,
>)
    ensures
        final(cursor)@.bytes == old(cursor)@.bytes,
        match r {
            Ok(items) => spec_decode_value(
                ValueType::StringArray,
                old(cursor)@.bytes,
                old(cursor)@.pos,
                old(pool)@,
            ) == Ok::<(SpecValue, int, PoolView), DecodeError>(
                (SpecValue::StringArray(items.deep_view()), final(cursor)@.pos, final(pool)@),
            ),
            Err(e) => spec_decode_value(
                ValueType::StringArray,
                old(cursor)@.bytes,
                old(cursor)@.pos,
                old(pool)@,
            ) == Err::<(SpecValue, int, PoolView), DecodeError>(e),
        },
{
    let n = cursor.read_u16()?;
    let ghost whole = spec_decode_value(
        ValueType::StringArray,
        old(cursor)@.bytes,
        old(cursor)@.pos,
        old(pool)@,
    );
    let mut items: Vec<String> = Vec::new();
    let mut i: u16 = 0;
    assert(items.deep_view() =~= Seq::<Seq<char>>::empty());
    while i < n
        invariant
            i <= n,
            cursor@.bytes == old(cursor)@.bytes,
            whole == spec_decode_value(
                ValueType::StringArray,
                old(cursor)@.bytes,
                old(cursor)@.pos,
                old(pool)@,
            ),
            whole == as_array(
                spec_read_strings(
                    cursor@.bytes,
                    cursor@.pos,
                    pool@,
                    (n - i) as nat,
                    items.deep_view(),
                ),
            ),
        decreases n - i,
    {
        let ghost before = items.deep_view();
        match read_interned_string(cursor, pool) {
            Ok(s) => {
                items.push(s);
                assert(items.deep_view() =~= before.push(s@));
            },
            Err(e) => {
                return Err(e);
            },
        }
        i = i + 1;
    }
    Ok(items)
}

impl Clone for TypedValue {
    fn clone(&self) -> (copy: Self)
        ensures
            copy@ == self@,
    {
        match self {
            TypedValue::Null => TypedValue::Null,
            TypedValue::Boolean(b) => TypedValue::Boolean(*b),
            TypedValue::Int32(v) => TypedValue::Int32(*v),
            TypedValue::Int64(v) => TypedValue::Int64(*v),
            TypedValue::Float(bits) => TypedValue::Float(*bits),
            TypedValue::Double(bits) => TypedValue::Double(*bits),
            TypedValue::String(s) => TypedValue::String(s.clone()),
            TypedValue::StringArray(items) => {
                let mut copies: Vec<String> = Vec::new();
                let mut i: usize = 0;
                while i < items.len()
                    invariant
                        i <= items.len(),
                        copies.len() == i,
                        forall|k: int| 0 <= k < i ==> copies[k]@ == items[k]@,
                    decreases items.len() - i,
                {
                    copies.push(items[i].clone());
                    i = i + 1;
                }
                assert(copies.deep_view() =~= items.deep_view());
                TypedValue::StringArray(copies)
            },
            TypedValue::Bytes(b) => {
                let mut copies: Vec<u8> = Vec::new();
                let mut i: usize = 0;
                while i < b.len()
                    invariant
                        i <= b.len(),
                        copies@ == b@.take(i as int),
                    decreases b.len() - i,
                {
                    copies.push(b[i]);
                    i = i + 1;
                }
                assert(b@.take(b.len() as int) =~= b@);
                TypedValue::Bytes(copies)
            },
        }
    }
}

impl TypedValue {
    /// Reads the payload of a value whose declared type is `ty`.
    pub fn decode(ty: ValueType, cursor: &mut ByteCursor, pool: &mut StringPool) -> (r: Result<
        TypedValue,
        DecodeError,
    >)
        ensures
            final(cursor)@.bytes == old(cursor)@.bytes,
            pooled(r, final(cursor)@.pos, final(pool)@) == spec_decode_value(
                ty,
                old(cursor)@.bytes,
                old(cursor)@.pos,
                old(pool)@,
            ),
    {
        match ty {
            ValueType::Null => Ok(TypedValue::Null),
            ValueType::Boolean => {
                let b = read_bool(cursor)?;
                Ok(TypedValue::Boolean(b))
            },
            ValueType::Int32 => {
                let v = cursor.read_i32()?;
                Ok(TypedValue::Int32(v))
            },
            ValueType::Int64 => {
                let v = cursor.read_i64()?;
                Ok(TypedValue::Int64(v))
            },
            ValueType::Float => {
                let v = cursor.read_f32_bits()?;
                Ok(TypedValue::Float(v))
            },
            ValueType::Double => {
                let v = cursor.read_f64_bits()?;
                Ok(TypedValue::Double(v))
            },
            ValueType::String => {
                let s = read_interned_string(cursor, pool)?;
                Ok(TypedValue::String(s))
            },
            ValueType::StringArray => {
                let items = read_string_array(cursor, pool)?;
                Ok(TypedValue::StringArray(items))
            },
            ValueType::Bytes => {
                let n = cursor.read_u16()?;
                let b = cursor.read_bytes(n as usize)?;
                Ok(TypedValue::Bytes(slice_to_vec(b)))
            },
        }
    }

    /// Appends the text form of the value.
    pub fn push_text(&self, out: &mut String)
        ensures
            final(out)@ == old(out)@ + value_text(self@),
    {
        match self {
            TypedValue::Null => {},
            TypedValue::Boolean(b) => {
                if *b {
                    out.append("true");
                } else {
                    out.append("false");
                }
            },
            TypedValue::Int32(v) => {
                push_decimal(out, *v as i64);
            },
            TypedValue::Int64(v) => {
                push_decimal(out, *v);
            },
            TypedValue::Float(bits) => {
                push_single(out, *bits);
            },
            TypedValue::Double(bits) => {
                push_double(out, *bits);
            },
            TypedValue::String(s) => {
                out.append(s.as_str());
            },
            TypedValue::StringArray(items) => {
                push_joined(out, items, ',');
            },
            TypedValue::Bytes(b) => {
                push_hex(out, b.as_slice());
            },
        }
    }

    /// The text form of the value.
    pub fn to_text(&self) -> (s: String)
        ensures
            s@ == value_text(self@),
    {
        let mut s = String::new();
        self.push_text(&mut s);
        s
    }

    /// The type under which the value is declared in a stream.
    pub fn value_type(&self) -> (ty: ValueType)
        ensures
            ty == self@.value_type(),
    {
        match self {
            TypedValue::Null => ValueType::Null,
            TypedValue::Boolean(_) => ValueType::Boolean,
            TypedValue::Int32(_) => ValueType::Int32,
            TypedValue::Int64(_) => ValueType::Int64,
            TypedValue::Float(_) => ValueType::Float,
            TypedValue::Double(_) => ValueType::Double,
            TypedValue::String(_) => ValueType::String,
            TypedValue::StringArray(_) => ValueType::StringArray,
            TypedValue::Bytes(_) => ValueType::Bytes,
        }
    }
}

} // verus!
