//! Rows as the engine stores them: a primary key, the sequence number of the
//! write that brought the row, and the row's value.

use crate::time::Timestamp;
use crate::types::SequenceNumber;
use vstd::prelude::*;

verus! {

/// The primary key of a row: the key of its series, then its timestamp.
#[derive(Clone, Copy, Debug, PartialEq, Eq, Structural)]
pub struct PrimaryKey {
    pub pk: i64,
    pub timestamp: Timestamp,
}

impl PrimaryKey {
    /// `self` sorts strictly before `other`: by series, then by timestamp.
    pub open spec fn spec_lt(self, other: PrimaryKey) -> bool {
        self.pk < other.pk || (self.pk == other.pk && self.timestamp.0 < other.timestamp.0)
    }

    pub fn lt(&self, other: &PrimaryKey) -> (b: bool)
        ensures
            b == self.spec_lt(*other),
    {
        self.pk < other.pk || (self.pk == other.pk && self.timestamp.0 < other.timestamp.0)
    }

    pub fn equals(&self, other: &PrimaryKey) -> (b: bool)
        ensures
            b == (*self == *other),
    {
        self.pk == other.pk && self.timestamp.0 == other.timestamp.0
    }
}

/// A row as it is written and read. The value is held by its bit pattern.
#[derive(Clone, Copy, Debug, PartialEq, Eq, Structural)]
pub struct KeyedRow {
    pub key: PrimaryKey,
    pub value: u64,
}

/// A row as it is stored, with the sequence number of its write.
#[derive(Clone, Copy, Debug, PartialEq, Eq, Structural)]
pub struct Entry {
    pub key: PrimaryKey,
    pub sequence: SequenceNumber,
    pub value: u64,
}

impl Entry {
    /// The row without its sequence number.
    pub open spec fn spec_row(self) -> KeyedRow {
        KeyedRow { key: self.key, value: self.value }
    }

    /// `self` may stand before `other` in a stream of rows: its key is the
    /// smaller, or the keys are equal and its sequence number is not the smaller.
    pub open spec fn spec_le(self, other: Entry) -> bool {
        self.key.spec_lt(other.key) || (self.key == other.key && self.sequence >= other.sequence)
    }

    pub fn new(row: KeyedRow, sequence: SequenceNumber) -> (e: Entry)
        ensures
            e == (Entry { key: row.key, sequence, value: row.value }),
    {
        Entry { key: row.key, sequence, value: row.value }
    }

    pub fn row(&self) -> (row: KeyedRow)
        ensures
            row == self.spec_row(),
    {
        KeyedRow { key: self.key, value: self.value }
    }

    pub fn le(&self, other: &Entry) -> (b: bool)
        ensures
            b == self.spec_le(*other),
    {
        self.key.lt(&other.key) || (self.key.equals(&other.key) && self.sequence >= other.sequence)
    }
}

/// The rows stand in ascending order of their keys, and among equal keys the
/// later write comes first.
pub open spec fn sorted_entries(entries: Seq<Entry>) -> bool {
    forall|i: int, j: int|
        0 <= i < j < entries.len() ==> (#[trigger] entries[i]).spec_le(#[trigger] entries[j])
}

/// The rows stand in strictly ascending order of their keys: no key occurs
/// twice.
pub open spec fn strictly_ascending(entries: Seq<Entry>) -> bool {
    forall|i: int, j: int|
        0 <= i < j < entries.len() ==> (#[trigger] entries[i]).key.spec_lt(
            (#[trigger] entries[j]).key,
        )
}

/// What each source holds, as sequences.
pub open spec fn views(sources: Seq<Vec<Entry>>) -> Seq<Seq<Entry>> {
    sources.map_values(|source: Vec<Entry>| source@)
}

/// All rows of all sources, source after source.
pub open spec fn all_entries(sources: Seq<Vec<Entry>>) -> Seq<Entry> {
    views(sources).flatten()
}

/// Every source is sorted.
pub open spec fn all_sorted(sources: Seq<Vec<Entry>>) -> bool {
    forall|s: int| 0 <= s < sources.len() ==> sorted_entries(#[trigger] sources[s]@)
}

/// The eight bytes of the number, the most significant first.
pub open spec fn be_bytes(v: u64) -> Seq<u8> {
    seq![
        (v / 0x100000000000000 % 256) as u8,
        (v / 0x1000000000000 % 256) as u8,
        (v / 0x10000000000 % 256) as u8,
        (v / 0x100000000 % 256) as u8,
        (v / 0x1000000 % 256) as u8,
        (v / 0x10000 % 256) as u8,
        (v / 0x100 % 256) as u8,
        (v % 256) as u8,
    ]
}

/// The number moved up by 2^63, so that the least number comes to stand at
/// zero.
pub open spec fn biased(v: i64) -> u64 {
    (v + 0x8000000000000000) as u64
}

/// The key as bytes: the series, then the timestamp, each moved up to stand
/// at zero or above and written with its most significant byte first.
pub open spec fn encoded_key(key: PrimaryKey) -> Seq<u8> {
    be_bytes(biased(key.pk)) + be_bytes(biased(key.timestamp.0))
}

fn push_be_bytes(out: &mut Vec<u8>, v: u64)
    ensures
        final(out)@ == old(out)@ + be_bytes(v),
{
    let ghost before = out@;
    out.push((v / 0x100000000000000 % 256) as u8);
    out.push((v / 0x1000000000000 % 256) as u8);
    out.push((v / 0x10000000000 % 256) as u8);
    out.push((v / 0x100000000 % 256) as u8);
    out.push((v / 0x1000000 % 256) as u8);
    out.push((v / 0x10000 % 256) as u8);
    out.push((v / 0x100 % 256) as u8);
    out.push((v % 256) as u8);
    proof {
        assert(out@ =~= before + be_bytes(v));
    }
}

fn bias(v: i64) -> (b: u64)
    ensures
        b == biased(v),
{
    if v >= 0 {
        v as u64 + 0x8000000000000000
    } else {
        (v + 0x7fffffffffffffff + 1) as u64
    }
}

/// The key as bytes.
pub fn encode_key(key: &PrimaryKey) -> (bytes: Vec<u8>)
    ensures
        bytes@ == encoded_key(*key),
{
    let mut bytes: Vec<u8> = Vec::new();
    push_be_bytes(&mut bytes, bias(key.pk));
    push_be_bytes(&mut bytes, bias(key.timestamp.0));
    bytes
}

} // verus!
