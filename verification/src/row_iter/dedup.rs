//! Drops the rows that a later write of the same key has overwritten.

use crate::entry::{sorted_entries, strictly_ascending, Entry};
use vstd::prelude::*;

verus! {

/// The first row of each run of rows that share a key.
pub open spec fn first_of_runs(entries: Seq<Entry>) -> Seq<Entry>
    decreases entries.len(),
{
    if entries.len() == 0 {
        Seq::empty()
    } else {
        let rest = first_of_runs(entries.drop_last());
        if entries.len() >= 2 && entries[entries.len() - 2].key == entries.last().key {
            rest
        } else {
            rest.push(entries.last())
        }
    }
}

/// Of a sorted stream, only the first row of each key: the row of the latest
/// write.
pub fn dedup(entries: &Vec<Entry>) -> (out: Vec<Entry>)
    ensures
        out@ == first_of_runs(entries@),
{
    let mut out: Vec<Entry> = Vec::new();
    let mut i: usize = 0;
    while i < entries.len()
        invariant
            i <= entries@.len(),
            out@ == first_of_runs(entries@.take(i as int)),
        decreases entries@.len() - i,
    {
        proof {
            let next = entries@.take(i + 1);
            assert(next.drop_last() =~= entries@.take(i as int));
            assert(next.last() == entries@[i as int]);
            if i >= 1 {
                assert(next[next.len() - 2] == entries@[i - 1]);
            }
        }
        if i == 0 || !entries[i - 1].key.equals(&entries[i].key) {
            out.push(entries[i]);
        }
        i += 1;
    }
    proof {
        assert(entries@.take(entries@.len() as int) =~= entries@);
    }
    out
}

/// Every row of `out` is a row of `entries`.
pub open spec fn drawn_from(entries: Seq<Entry>, out: Seq<Entry>) -> bool {
    forall|i: int| 0 <= i < out.len() ==> entries.contains(#[trigger] out[i])
}

/// `out` holds a row of the key of `e` whose write is not earlier than that of
/// `e`.
pub open spec fn holds_latest_of(out: Seq<Entry>, e: Entry) -> bool {
    exists|i: int|
        0 <= i < out.len() && (#[trigger] out[i]).key == e.key && out[i].sequence >= e.sequence
}

/// For every row of `entries`, `out` holds a row of the same key whose write is
/// not earlier.
pub open spec fn covers(entries: Seq<Entry>, out: Seq<Entry>) -> bool {
    forall|j: int| 0 <= j < entries.len() ==> holds_latest_of(out, #[trigger] entries[j])
}

/// `out` holds each key once, only rows of `entries`, and of each key of
/// `entries` a row of the latest write.
pub open spec fn keeps_latest(entries: Seq<Entry>, out: Seq<Entry>) -> bool {
    &&& strictly_ascending(out)
    &&& drawn_from(entries, out)
    &&& covers(entries, out)
}

spec fn ends_alike(entries: Seq<Entry>, out: Seq<Entry>) -> bool {
    entries.len() > 0 ==> out.len() > 0 && out.last().key == entries.last().key
}

proof fn lemma_prefix_sorted(entries: Seq<Entry>)
    requires
        sorted_entries(entries),
        entries.len() > 0,
    ensures
        sorted_entries(entries.drop_last()),
{
    let p = entries.drop_last();
    assert forall|i: int, j: int| 0 <= i < j < p.len() implies (#[trigger] p[i]).spec_le(
        #[trigger] p[j],
    ) by {
        assert(entries[i].spec_le(entries[j]));
    }
}

proof fn lemma_same_run(entries: Seq<Entry>, out: Seq<Entry>)
    requires
        sorted_entries(entries),
        entries.len() >= 2,
        entries[entries.len() - 2].key == entries.last().key,
        keeps_latest(entries.drop_last(), out),
        ends_alike(entries.drop_last(), out),
    ensures
        keeps_latest(entries, out),
        ends_alike(entries, out),
{
    let p = entries.drop_last();
    let n = entries.len() as int;
    assert(p[n - 2] == entries[n - 2]);
    assert forall|i: int| 0 <= i < out.len() implies entries.contains(#[trigger] out[i]) by {
        assert(p.contains(out[i]));
        let k = choose|k: int| 0 <= k < p.len() && p[k] == out[i];
        assert(entries[k] == out[i]);
    }
    assert forall|j: int| 0 <= j < n implies holds_latest_of(out, #[trigger] entries[j]) by {
        if j < n - 1 {
            assert(p[j] == entries[j]);
            assert(holds_latest_of(out, p[j]));
        } else {
            assert(holds_latest_of(out, p[n - 2]));
            let i = choose|i: int|
                0 <= i < out.len() && (#[trigger] out[i]).key == p[n - 2].key && out[i].sequence
                    >= p[n - 2].sequence;
            assert(entries[n - 2].spec_le(entries[n - 1]));
            assert(out[i].key == entries[j].key && out[i].sequence >= entries[j].sequence);
        }
    }
}

proof fn lemma_new_run(entries: Seq<Entry>, out: Seq<Entry>)
    requires
        sorted_entries(entries),
        entries.len() >= 1,
        entries.len() >= 2 ==> entries[entries.len() - 2].key != entries.last().key,
        keeps_latest(entries.drop_last(), out),
        ends_alike(entries.drop_last(), out),
    ensures
        keeps_latest(entries, out.push(entries.last())),
        ends_alike(entries, out.push(entries.last())),
{
    let p = entries.drop_last();
    let n = entries.len() as int;
    let e = entries.last();
    let grown = out.push(e);
    assert(entries[n - 1] == e);
    assert forall|i: int, j: int| 0 <= i < j < grown.len()
        implies (#[trigger] grown[i]).key.spec_lt(
        (#[trigger] grown[j]).key,
    ) by {
        if j == out.len() {
            assert(p.contains(out[i]));
            let k = choose|k: int| 0 <= k < p.len() && p[k] == out[i];
            assert(entries[k] == out[i]);
            assert(entries[k].spec_le(entries[n - 1]));
            if k < n - 2 {
                assert(entries[k].spec_le(entries[n - 2]));
            }
            assert(entries[n - 2].spec_le(entries[n - 1]));
        } else {
            assert(out[i].key.spec_lt(out[j].key));
        }
    }
    assert forall|i: int| 0 <= i < grown.len() implies entries.contains(#[trigger] grown[i]) by {
        if i < out.len() {
            assert(p.contains(out[i]));
            let k = choose|k: int| 0 <= k < p.len() && p[k] == out[i];
            assert(entries[k] == grown[i]);
        } else {
            assert(entries[n - 1] == grown[i]);
        }
    }
    assert forall|j: int| 0 <= j < n implies holds_latest_of(grown, #[trigger] entries[j]) by {
        if j < n - 1 {
            assert(p[j] == entries[j]);
            assert(holds_latest_of(out, p[j]));
            let i = choose|i: int|
                0 <= i < out.len() && (#[trigger] out[i]).key == p[j].key && out[i].sequence
                    >= p[j].sequence;
            assert(grown[i] == out[i]);
        } else {
            assert(grown[out.len() as int] == e);
        }
    }
    assert(grown.last() == e);
}

proof fn lemma_first_of_runs(entries: Seq<Entry>)
    requires
        sorted_entries(entries),
    ensures
        keeps_latest(entries, first_of_runs(entries)),
        ends_alike(entries, first_of_runs(entries)),
    decreases entries.len(),
{
    if entries.len() > 0 {
        lemma_prefix_sorted(entries);
        lemma_first_of_runs(entries.drop_last());
        let out_p = first_of_runs(entries.drop_last());
        if entries.len() >= 2 && entries[entries.len() - 2].key == entries.last().key {
            lemma_same_run(entries, out_p);
        } else {
            lemma_new_run(entries, out_p);
        }
    }
}

/// Something is left of a stream that holds a row.
pub proof fn lemma_dedup_is_not_empty(entries: Seq<Entry>)
    requires
        entries.len() > 0,
    ensures
        first_of_runs(entries).len() > 0,
    decreases entries.len(),
{
    if entries.len() >= 2 {
        lemma_dedup_is_not_empty(entries.drop_last());
    }
}

/// What is left of a stream, sorted or not, holds only rows of the stream.
pub proof fn lemma_drawn_from(entries: Seq<Entry>)
    ensures
        drawn_from(entries, first_of_runs(entries)),
    decreases entries.len(),
{
    if entries.len() > 0 {
        let p = entries.drop_last();
        lemma_drawn_from(p);
        let out = first_of_runs(entries);
        assert forall|i: int| 0 <= i < out.len() implies entries.contains(#[trigger] out[i]) by {
            if i < first_of_runs(p).len() {
                assert(out[i] == first_of_runs(p)[i]);
                assert(p.contains(out[i]));
                let k = choose|k: int| 0 <= k < p.len() && p[k] == out[i];
                assert(entries[k] == out[i]);
            } else {
                assert(out[i] == entries[entries.len() - 1]);
            }
        }
    }
}

/// What is left of a sorted stream holds each key once, holds only rows of the
/// stream, and holds for every row of the stream a row of the same key whose
/// write is not earlier: of each key exactly the row of the latest write stays.
pub proof fn lemma_dedup_keeps_latest(entries: Seq<Entry>)
    requires
        sorted_entries(entries),
    ensures
        keeps_latest(entries, first_of_runs(entries)),
{
    lemma_first_of_runs(entries);
}

/// A stream without the rows that a later write has overwritten.
pub struct DedupIterator {
    pub entries: Vec<Entry>,
}

impl DedupIterator {
    pub fn new(entries: Vec<Entry>) -> (iter: DedupIterator)
        ensures
            iter.entries == entries,
    {
        DedupIterator { entries }
    }

    /// All rows that are left of the stream.
    pub fn collect(&self) -> (out: Vec<Entry>)
        ensures
            out@ == first_of_runs(self.entries@),
    {
        dedup(&self.entries)
    }
}

} // verus!
