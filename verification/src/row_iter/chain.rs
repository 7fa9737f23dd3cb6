//! Reads the sources one after the other, without sorting.

use crate::entry::{all_entries, views, Entry};
use vstd::prelude::*;

verus! {

/// Walks the sources in the order given and, within each, its rows in their
/// order: every row of every source comes out exactly once.
pub struct ChainIterator {
    pub sources: Vec<Vec<Entry>>,
}

impl ChainIterator {
    pub fn new(sources: Vec<Vec<Entry>>) -> (iter: ChainIterator)
        ensures
            iter.sources == sources,
    {
        ChainIterator { sources }
    }

    /// All rows of the chain.
    pub fn collect(&self) -> (out: Vec<Entry>)
        ensures
            out@ == all_entries(self.sources@),
    {
        chain(&self.sources)
    }
}

/// All rows of the sources, source after source.
pub fn chain(sources: &Vec<Vec<Entry>>) -> (out: Vec<Entry>)
    ensures
        out@ == all_entries(sources@),
{
    let mut out: Vec<Entry> = Vec::new();
    let mut s: usize = 0;
    while s < sources.len()
        invariant
            s <= sources@.len(),
            out@ == views(sources@).take(s as int).flatten(),
        decreases sources@.len() - s,
    {
        let source = &sources[s];
        let ghost done = out@;
        let mut i: usize = 0;
        while i < source.len()
            invariant
                i <= source@.len(),
                out@ == done + source@.take(i as int),
            decreases source@.len() - i,
        {
            out.push(source[i]);
            proof {
                assert(source@.take(i as int).push(source@[i as int]) =~= source@.take(i + 1));
                assert(out@ =~= done + source@.take(i + 1));
            }
            i += 1;
        }
        proof {
            assert(source@.take(source@.len() as int) =~= source@);
            let v = views(sources@);
            v.take(s as int).lemma_flatten_push(source@);
            assert(v.take(s as int).push(v[s as int]) =~= v.take(s + 1));
        }
        s += 1;
    }
    proof {
        assert(views(sources@).take(sources@.len() as int) =~= views(sources@));
    }
    out
}

} // verus!
