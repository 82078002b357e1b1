//! Materialization: re-parsing a column's tokens into a typed, null-aware
//! buffer, and the type-erased column handle that exposes only length and
//! emptiness over the finite set of supported element types.

use vstd::prelude::*;

use crate::buffer::{TypedBuffer, Writable};
use crate::numeric::{
    fits_i128, fits_i32, fits_i64, int_token_val, is_parseable_int, parse_i128, parse_i32,
    parse_i64,
};

verus! {

/// What the standard library's boolean parsing accepts: exactly the
/// lower-case literals "true" and "false".
pub open spec fn parse_bool_spec(s: Seq<char>) -> Option<bool> {
    if s.len() == 4 && s[0] == 't' && s[1] == 'r' && s[2] == 'u' && s[3] == 'e' {
        Some(true)
    } else if s.len() == 5 && s[0] == 'f' && s[1] == 'a' && s[2] == 'l' && s[3] == 's' && s[4]
        == 'e' {
        Some(false)
    } else {
        None
    }
}

/// Parses a boolean cell: the exact lower-case literals only.
pub fn parse_bool(s: &str) -> (r: Option<bool>)
    ensures
        r == parse_bool_spec(s@),
{
    let n = s.unicode_len();
    if n == 4 {
        if s.get_char(0) == 't' && s.get_char(1) == 'r' && s.get_char(2) == 'u' && s.get_char(3)
            == 'e' {
            Some(true)
        } else {
            None
        }
    } else if n == 5 {
        if s.get_char(0) == 'f' && s.get_char(1) == 'a' && s.get_char(2) == 'l' && s.get_char(3)
            == 's' && s.get_char(4) == 'e' {
            Some(false)
        } else {
            None
        }
    } else {
        None
    }
}

/// A concrete element type a column can be materialized at: it knows how
/// to parse one cell and how to wrap a finished buffer into a column.
pub trait DataType: Sized + Copy {
    /// What parsing a cell as this type yields: the represented value, or
    /// `None` for a cell this type cannot represent.
    spec fn parse_spec(s: Seq<char>) -> Option<Self>;

    /// Parses one cell.
    fn parse_token(s: &str) -> (r: Option<Self>)
        ensures
            r == Self::parse_spec(s@),
    ;

    /// Wraps a finished buffer of this element type into a type-erased
    /// column of the same length.
    fn into_column(buf: TypedBuffer<Option<Self>>) -> (c: Column)
        ensures
            c.spec_len() == buf@.len(),
    ;
}

impl DataType for bool {
    open spec fn parse_spec(s: Seq<char>) -> Option<bool> {
        parse_bool_spec(s)
    }

    fn parse_token(s: &str) -> (r: Option<bool>) {
        parse_bool(s)
    }

    fn into_column(buf: TypedBuffer<Option<bool>>) -> (c: Column) {
        Column::Bool(buf)
    }
}

impl DataType for i32 {
    open spec fn parse_spec(s: Seq<char>) -> Option<i32> {
        if is_parseable_int(s) && fits_i32(int_token_val(s)) {
            Some(int_token_val(s) as i32)
        } else {
            None
        }
    }

    fn parse_token(s: &str) -> (r: Option<i32>) {
        parse_i32(s)
    }

    fn into_column(buf: TypedBuffer<Option<i32>>) -> (c: Column) {
        Column::Int32(buf)
    }
}

impl DataType for i64 {
    open spec fn parse_spec(s: Seq<char>) -> Option<i64> {
        if is_parseable_int(s) && fits_i64(int_token_val(s)) {
            Some(int_token_val(s) as i64)
        } else {
            None
        }
    }

    fn parse_token(s: &str) -> (r: Option<i64>) {
        parse_i64(s)
    }

    fn into_column(buf: TypedBuffer<Option<i64>>) -> (c: Column) {
        Column::Int64(buf)
    }
}

impl DataType for i128 {
    open spec fn parse_spec(s: Seq<char>) -> Option<i128> {
        if is_parseable_int(s) && fits_i128(int_token_val(s)) {
            Some(int_token_val(s) as i128)
        } else {
            None
        }
    }

    fn parse_token(s: &str) -> (r: Option<i128>) {
        parse_i128(s)
    }

    fn into_column(buf: TypedBuffer<Option<i128>>) -> (c: Column) {
        Column::Int128(buf)
    }
}

/// Materializes a column at element type `T`: every token is parsed in
/// input order, and a cell the type cannot represent becomes an absent
/// value rather than an error.
pub fn parse_type<T: DataType>(words: TypedBuffer<String>) -> (ret: TypedBuffer<Option<T>>)
    ensures
        ret@.len() == words@.len(),
        forall|i: int| 0 <= i < words@.len() ==> ret@[i] == T::parse_spec(words@[i]@),
{
    let mut ret: TypedBuffer<Option<T>> = TypedBuffer::new();
    let n = words.get_offset();
    let mut i: usize = 0;
    while i < n
        invariant
            n as nat == words@.len(),
            i <= n,
            ret@.len() == i as nat,
            forall|j: int| 0 <= j < i ==> ret@[j] == T::parse_spec(words@[j]@),
        decreases n - i,
    {
        let el = T::parse_token(words.get(i).as_str());
        ret.write(Writable::Single(el));
        i += 1;
    }
    ret
}

/// Materializes a text column. A token is retained only when it is empty
/// and every non-empty token becomes an absent value — the inverse of a
/// null-tracking convention; consumers should confirm this rule against
/// real data before relying on it.
pub fn parse_utf8(words: TypedBuffer<String>) -> (ret: TypedBuffer<Option<String>>)
    ensures
        ret@.len() == words@.len(),
        forall|i: int|
            0 <= i < words@.len() ==> (words@[i]@.len() == 0 ==> (ret@[i] matches Some(w) && w@
                == words@[i]@)),
        forall|i: int| 0 <= i < words@.len() ==> (words@[i]@.len() != 0 ==> ret@[i] is None),
{
    let mut ret: TypedBuffer<Option<String>> = TypedBuffer::new();
    let n = words.get_offset();
    let mut i: usize = 0;
    while i < n
        invariant
            n as nat == words@.len(),
            i <= n,
            ret@.len() == i as nat,
            forall|j: int|
                0 <= j < i ==> (words@[j]@.len() == 0 ==> (ret@[j] matches Some(w) && w@
                    == words@[j]@)),
            forall|j: int| 0 <= j < i ==> (words@[j]@.len() != 0 ==> ret@[j] is None),
        decreases n - i,
    {
        let w = words.get(i);
        let el = if w.as_str().unicode_len() == 0 {
            Some(w.clone())
        } else {
            None
        };
        ret.write(Writable::Single(el));
        i += 1;
    }
    ret
}

/// A type-erased column: exactly one typed buffer for one of the supported
/// element types, exposing only its length and emptiness.
pub enum Column {
    Bool(TypedBuffer<Option<bool>>),
    Int32(TypedBuffer<Option<i32>>),
    Int64(TypedBuffer<Option<i64>>),
    Int128(TypedBuffer<Option<i128>>),
    Text(TypedBuffer<Option<String>>),
}

impl Column {
    /// The number of cells the column holds.
    pub open spec fn spec_len(&self) -> nat {
        match self {
            Column::Bool(b) => b@.len(),
            Column::Int32(b) => b@.len(),
            Column::Int64(b) => b@.len(),
            Column::Int128(b) => b@.len(),
            Column::Text(b) => b@.len(),
        }
    }

    /// Wraps a buffer of any supported scalar element type.
    pub fn new<T: DataType>(buffer: TypedBuffer<Option<T>>) -> (c: Self)
        ensures
            c.spec_len() == buffer@.len(),
    {
        T::into_column(buffer)
    }

    /// Wraps a text buffer.
    pub fn from_any(buffer: TypedBuffer<Option<String>>) -> (c: Self)
        ensures
            c.spec_len() == buffer@.len(),
    {
        Column::Text(buffer)
    }

    /// The number of cells the column holds.
    pub fn len(&self) -> (r: usize)
        ensures
            r as nat == self.spec_len(),
    {
        match self {
            Column::Bool(b) => b.get_offset(),
            Column::Int32(b) => b.get_offset(),
            Column::Int64(b) => b.get_offset(),
            Column::Int128(b) => b.get_offset(),
            Column::Text(b) => b.get_offset(),
        }
    }

    /// Whether the column holds no cells.
    pub fn is_empty(&self) -> (r: bool)
        ensures
            r == (self.spec_len() == 0),
    {
        self.len() == 0
    }
}

} // verus!
