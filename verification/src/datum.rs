//! Kinds of column values, and the values themselves.

use vstd::prelude::*;

verus! {

/// The type of the values of a column.
#[derive(Clone, Copy, Debug, PartialEq, Eq, Structural)]
pub enum DatumKind {
    Null,
    Timestamp,
    Double,
    Float,
    Varbinary,
    String,
    UInt64,
    UInt32,
    UInt16,
    UInt8,
    Int64,
    Int32,
    Int16,
    Int8,
    Boolean,
    Date,
    Time,
}

impl DatumKind {
    /// Values of this kind may be part of a primary key: every kind but null
    /// and the floating point kinds.
    pub open spec fn spec_is_key_kind(self) -> bool {
        !(self is Null || self is Double || self is Float)
    }

    /// Values of this kind may be dictionary encoded: strings only.
    pub open spec fn spec_is_dictionary_kind(self) -> bool {
        self is String
    }

    pub fn is_key_kind(&self) -> (b: bool)
        ensures
            b == self.spec_is_key_kind(),
    {
        match self {
            DatumKind::Null | DatumKind::Double | DatumKind::Float => false,
            _ => true,
        }
    }

    pub fn is_timestamp(&self) -> (b: bool)
        ensures
            b == (*self is Timestamp),
    {
        match self {
            DatumKind::Timestamp => true,
            _ => false,
        }
    }

    pub fn is_dictionary_kind(&self) -> (b: bool)
        ensures
            b == self.spec_is_dictionary_kind(),
    {
        match self {
            DatumKind::String => true,
            _ => false,
        }
    }
}

/// One value of a row. Floating point values are held by their bit patterns,
/// so two of them are equal exactly when their bits are.
#[derive(Debug, PartialEq, Eq)]
pub enum Datum {
    Null,
    Timestamp(i64),
    Double(u64),
    Float(u32),
    Varbinary(Vec<u8>),
    String(String),
    UInt64(u64),
    UInt32(u32),
    UInt16(u16),
    UInt8(u8),
    Int64(i64),
    Int32(i32),
    Int16(i16),
    Int8(i8),
    Boolean(bool),
    Date(i32),
    Time(i64),
}

/// What a datum holds, with byte strings and text as sequences.
pub enum DatumView {
    Null,
    Timestamp(i64),
    Double(u64),
    Float(u32),
    Varbinary(Seq<u8>),
    String(Seq<char>),
    UInt64(u64),
    UInt32(u32),
    UInt16(u16),
    UInt8(u8),
    Int64(i64),
    Int32(i32),
    Int16(i16),
    Int8(i8),
    Boolean(bool),
    Date(i32),
    Time(i64),
}

impl View for Datum {
    type V = DatumView;

    open spec fn view(&self) -> DatumView {
        match *self {
            Datum::Null => DatumView::Null,
            Datum::Timestamp(v) => DatumView::Timestamp(v),
            Datum::Double(v) => DatumView::Double(v),
            Datum::Float(v) => DatumView::Float(v),
            Datum::Varbinary(v) => DatumView::Varbinary(v@),
            Datum::String(v) => DatumView::String(v@),
            Datum::UInt64(v) => DatumView::UInt64(v),
            Datum::UInt32(v) => DatumView::UInt32(v),
            Datum::UInt16(v) => DatumView::UInt16(v),
            Datum::UInt8(v) => DatumView::UInt8(v),
            Datum::Int64(v) => DatumView::Int64(v),
            Datum::Int32(v) => DatumView::Int32(v),
            Datum::Int16(v) => DatumView::Int16(v),
            Datum::Int8(v) => DatumView::Int8(v),
            Datum::Boolean(v) => DatumView::Boolean(v),
            Datum::Date(v) => DatumView::Date(v),
            Datum::Time(v) => DatumView::Time(v),
        }
    }
}

impl DatumView {
    /// The kind of the value.
    pub open spec fn kind(self) -> DatumKind {
        match self {
            DatumView::Null => DatumKind::Null,
            DatumView::Timestamp(_) => DatumKind::Timestamp,
            DatumView::Double(_) => DatumKind::Double,
            DatumView::Float(_) => DatumKind::Float,
            DatumView::Varbinary(_) => DatumKind::Varbinary,
            DatumView::String(_) => DatumKind::String,
            DatumView::UInt64(_) => DatumKind::UInt64,
            DatumView::UInt32(_) => DatumKind::UInt32,
            DatumView::UInt16(_) => DatumKind::UInt16,
            DatumView::UInt8(_) => DatumKind::UInt8,
            DatumView::Int64(_) => DatumKind::Int64,
            DatumView::Int32(_) => DatumKind::Int32,
            DatumView::Int16(_) => DatumKind::Int16,
            DatumView::Int8(_) => DatumKind::Int8,
            DatumView::Boolean(_) => DatumKind::Boolean,
            DatumView::Date(_) => DatumKind::Date,
            DatumView::Time(_) => DatumKind::Time,
        }
    }
}

fn bytes_equal(a: &Vec<u8>, b: &Vec<u8>) -> (eq: bool)
    ensures
        eq == (a@ == b@),
{
    if a.len() != b.len() {
        return false;
    }
    let mut i: usize = 0;
    while i < a.len()
        invariant
            a.len() == b.len(),
            i <= a.len(),
            forall|j: int| 0 <= j < i ==> a@[j] == b@[j],
        decreases a.len() - i,
    {
        if a[i] != b[i] {
            return false;
        }
        i += 1;
    }
    proof {
        assert(a@ =~= b@);
    }
    true
}

impl Datum {
    pub fn kind(&self) -> (k: DatumKind)
        ensures
            k == self@.kind(),
    {
        match self {
            Datum::Null => DatumKind::Null,
            Datum::Timestamp(_) => DatumKind::Timestamp,
            Datum::Double(_) => DatumKind::Double,
            Datum::Float(_) => DatumKind::Float,
            Datum::Varbinary(_) => DatumKind::Varbinary,
            Datum::String(_) => DatumKind::String,
            Datum::UInt64(_) => DatumKind::UInt64,
            Datum::UInt32(_) => DatumKind::UInt32,
            Datum::UInt16(_) => DatumKind::UInt16,
            Datum::UInt8(_) => DatumKind::UInt8,
            Datum::Int64(_) => DatumKind::Int64,
            Datum::Int32(_) => DatumKind::Int32,
            Datum::Int16(_) => DatumKind::Int16,
            Datum::Int8(_) => DatumKind::Int8,
            Datum::Boolean(_) => DatumKind::Boolean,
            Datum::Date(_) => DatumKind::Date,
            Datum::Time(_) => DatumKind::Time,
        }
    }

    pub fn is_null(&self) -> (b: bool)
        ensures
            b == (self@ is Null),
    {
        match self {
            Datum::Null => true,
            _ => false,
        }
    }

    /// Whether the two hold the same value.
    pub fn equals(&self, other: &Datum) -> (eq: bool)
        ensures
            eq == (self@ == other@),
    {
        match (self, other) {
            (Datum::Null, Datum::Null) => true,
            (Datum::Timestamp(a), Datum::Timestamp(b)) => *a == *b,
            (Datum::Double(a), Datum::Double(b)) => *a == *b,
            (Datum::Float(a), Datum::Float(b)) => *a == *b,
            (Datum::Varbinary(a), Datum::Varbinary(b)) => bytes_equal(a, b),
            (Datum::String(a), Datum::String(b)) => *a == *b,
            (Datum::UInt64(a), Datum::UInt64(b)) => *a == *b,
            (Datum::UInt32(a), Datum::UInt32(b)) => *a == *b,
            (Datum::UInt16(a), Datum::UInt16(b)) => *a == *b,
            (Datum::UInt8(a), Datum::UInt8(b)) => *a == *b,
            (Datum::Int64(a), Datum::Int64(b)) => *a == *b,
            (Datum::Int32(a), Datum::Int32(b)) => *a == *b,
            (Datum::Int16(a), Datum::Int16(b)) => *a == *b,
            (Datum::Int8(a), Datum::Int8(b)) => *a == *b,
            (Datum::Boolean(a), Datum::Boolean(b)) => *a == *b,
            (Datum::Date(a), Datum::Date(b)) => *a == *b,
            (Datum::Time(a), Datum::Time(b)) => *a == *b,
            _ => false,
        }
    }
}

impl Clone for Datum {
    fn clone(&self) -> (copy: Datum)
        ensures
            copy@ == self@,
    {
        match self {
            Datum::Null => Datum::Null,
            Datum::Timestamp(v) => Datum::Timestamp(*v),
            Datum::Double(v) => Datum::Double(*v),
            Datum::Float(v) => Datum::Float(*v),
            Datum::Varbinary(v) => Datum::Varbinary(crate::key::copy_key(v)),
            Datum::String(v) => Datum::String(v.clone()),
            Datum::UInt64(v) => Datum::UInt64(*v),
            Datum::UInt32(v) => Datum::UInt32(*v),
            Datum::UInt16(v) => Datum::UInt16(*v),
            Datum::UInt8(v) => Datum::UInt8(*v),
            Datum::Int64(v) => Datum::Int64(*v),
            Datum::Int32(v) => Datum::Int32(*v),
            Datum::Int16(v) => Datum::Int16(*v),
            Datum::Int8(v) => Datum::Int8(*v),
            Datum::Boolean(v) => Datum::Boolean(*v),
            Datum::Date(v) => Datum::Date(*v),
            Datum::Time(v) => Datum::Time(*v),
        }
    }
}

} // verus!
