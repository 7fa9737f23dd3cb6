//! Merges sorted sources into one sorted stream.

use crate::entry::{all_entries, all_sorted, sorted_entries, views, Entry};
use vstd::multiset::Multiset;
use vstd::prelude::*;
use vstd::seq_lib::*;

verus! {

/// What has been taken from each source so far: its first `cursors[s]` rows.
pub open spec fn prefixes(sources: Seq<Vec<Entry>>, cursors: Seq<usize>) -> Seq<Seq<Entry>> {
    Seq::new(sources.len(), |s: int| sources[s]@.take(cursors[s] as int))
}

/// Number of rows that are still to be taken from the sources.
pub open spec fn remaining(sources: Seq<Vec<Entry>>, cursors: Seq<usize>) -> int
    decreases sources.len(),
{
    if sources.len() == 0 {
        0
    } else {
        remaining(sources.drop_last(), cursors.drop_last()) + (sources.last()@.len()
            - cursors.last())
    }
}

/// The cursors stand within their sources.
pub open spec fn cursors_within(sources: Seq<Vec<Entry>>, cursors: Seq<usize>) -> bool {
    &&& cursors.len() == sources.len()
    &&& forall|s: int| 0 <= s < sources.len() ==> #[trigger] cursors[s] <= sources[s]@.len()
}

/// `next` is `cursors` with the cursor of source `b` moved on by one row.
pub open spec fn advanced(cursors: Seq<usize>, next: Seq<usize>, b: int) -> bool {
    &&& 0 <= b < cursors.len()
    &&& next.len() == cursors.len()
    &&& next[b] == cursors[b] + 1
    &&& forall|t: int| 0 <= t < cursors.len() && t != b ==> #[trigger] next[t] == cursors[t]
}

proof fn lemma_remaining_step(
    sources: Seq<Vec<Entry>>,
    cursors: Seq<usize>,
    next: Seq<usize>,
    b: int,
)
    requires
        cursors_within(sources, cursors),
        advanced(cursors, next, b),
        cursors[b] < sources[b]@.len(),
    ensures
        remaining(sources, next) == remaining(sources, cursors) - 1,
        remaining(sources, cursors) > 0,
    decreases sources.len(),
{
    lemma_remaining_nonnegative(sources.drop_last(), cursors.drop_last());
    if b == sources.len() - 1 {
        assert(next.drop_last() =~= cursors.drop_last());
    } else {
        assert(advanced(cursors.drop_last(), next.drop_last(), b));
        lemma_remaining_step(sources.drop_last(), cursors.drop_last(), next.drop_last(), b);
    }
}

proof fn lemma_remaining_nonnegative(sources: Seq<Vec<Entry>>, cursors: Seq<usize>)
    requires
        cursors_within(sources, cursors),
    ensures
        remaining(sources, cursors) >= 0,
    decreases sources.len(),
{
    if sources.len() > 0 {
        lemma_remaining_nonnegative(sources.drop_last(), cursors.drop_last());
    }
}

proof fn lemma_flatten_grows(ps: Seq<Seq<Entry>>, b: int, x: Entry)
    requires
        0 <= b < ps.len(),
    ensures
        ps.update(b, ps[b].push(x)).flatten().to_multiset() == ps.flatten().to_multiset().insert(x),
    decreases ps.len(),
{
    broadcast use vstd::multiset::group_multiset_axioms;

    let next = ps.update(b, ps[b].push(x));
    let rest = ps.drop_first();
    lemma_multiset_commutative(ps.first(), rest.flatten());
    lemma_multiset_commutative(next.first(), next.drop_first().flatten());
    if b == 0 {
        assert(next.drop_first() =~= rest);
        to_multiset_build(ps[0], x);
        assert(next.flatten().to_multiset() =~= ps.flatten().to_multiset().insert(x));
    } else {
        assert(next.drop_first() =~= rest.update(b - 1, rest[b - 1].push(x)));
        lemma_flatten_grows(rest, b - 1, x);
        assert(next.flatten().to_multiset() =~= ps.flatten().to_multiset().insert(x));
    }
}

/// Every row that has come out so far may stand before every row that is
/// still to be taken.
pub open spec fn out_before_rest(
    out: Seq<Entry>,
    sources: Seq<Vec<Entry>>,
    cursors: Seq<usize>,
) -> bool {
    forall|k: int, s: int, i: int|
        0 <= k < out.len() && 0 <= s < sources.len() && cursors[s] <= i < sources[s]@.len() ==> (
        #[trigger] out[k]).spec_le(#[trigger] sources[s]@[i])
}

/// Index of a source whose next row may stand before the next row of every
/// other source; none when every source is used up. Among several such
/// sources the first is taken.
fn pick_source(sources: &Vec<Vec<Entry>>, cursors: &Vec<usize>) -> (best: Option<usize>)
    requires
        cursors_within(sources@, cursors@),
    ensures
        match best {
            Some(b) => {
                &&& b < sources@.len()
                &&& cursors@[b as int] < sources@[b as int]@.len()
                &&& forall|t: int|
                    0 <= t < sources@.len() && cursors@[t] < sources@[t]@.len()
                        ==> sources@[b as int]@[cursors@[b as int] as int].spec_le(
                        #[trigger] sources@[t]@[cursors@[t] as int],
                    )
            },
            None => forall|t: int|
                0 <= t < sources@.len() ==> #[trigger] cursors@[t] == sources@[t]@.len(),
        },
{
    let mut best: Option<usize> = None;
    let mut t: usize = 0;
    while t < sources.len()
        invariant
            t <= sources@.len(),
            cursors_within(sources@, cursors@),
            match best {
                Some(b) => {
                    &&& b < t
                    &&& cursors@[b as int] < sources@[b as int]@.len()
                    &&& forall|u: int|
                        0 <= u < t && cursors@[u] < sources@[u]@.len()
                            ==> sources@[b as int]@[cursors@[b as int] as int].spec_le(
                            #[trigger] sources@[u]@[cursors@[u] as int],
                        )
                },
                None => forall|u: int| 0 <= u < t ==> #[trigger] cursors@[u] == sources@[u]@.len(),
            },
        decreases sources@.len() - t,
    {
        if cursors[t] < sources[t].len() {
            let head = &sources[t][cursors[t]];
            match best {
                Some(b) => {
                    let current = &sources[b][cursors[b]];
                    if !current.le(head) {
                        best = Some(t);
                    }
                },
                None => {
                    best = Some(t);
                },
            }
        }
        t += 1;
    }
    best
}

/// Merges the sources into one stream that holds every row of every source
/// exactly once. Where every source is sorted, so is the stream: keys ascend,
/// and among the rows of one key the later write comes first.
pub fn merge(sources: &Vec<Vec<Entry>>) -> (out: Vec<Entry>)
    ensures
        out@.to_multiset() == all_entries(sources@).to_multiset(),
        all_sorted(sources@) ==> sorted_entries(out@),
{
    let n = sources.len();
    let mut cursors: Vec<usize> = Vec::new();
    let mut s: usize = 0;
    while s < n
        invariant
            n == sources@.len(),
            s <= n,
            cursors@.len() == s,
            forall|t: int| 0 <= t < s ==> #[trigger] cursors@[t] == 0,
        decreases n - s,
    {
        cursors.push(0);
        s += 1;
    }
    let mut out: Vec<Entry> = Vec::new();
    proof {
        lemma_nothing_taken(sources@, cursors@);
    }
    loop
        invariant
            cursors_within(sources@, cursors@),
            out@.to_multiset() == prefixes(sources@, cursors@).flatten().to_multiset(),
            all_sorted(sources@) ==> sorted_entries(out@) && out_before_rest(
                out@,
                sources@,
                cursors@,
            ),
        ensures
            cursors_within(sources@, cursors@),
            out@.to_multiset() == prefixes(sources@, cursors@).flatten().to_multiset(),
            all_sorted(sources@) ==> sorted_entries(out@),
            forall|t: int| 0 <= t < sources@.len() ==> #[trigger] cursors@[t] == sources@[t]@.len(),
        decreases remaining(sources@, cursors@),
    {
        let b = match pick_source(sources, &cursors) {
            Some(b) => b,
            None => {
                break;
            },
        };
        let at = cursors[b];
        let len = sources[b].len();
        let head = sources[b][at];
        let ghost before = cursors@;
        let ghost taken = out@;
        out.push(head);
        cursors.set(b, at + 1);
        proof {
            assert(advanced(before, cursors@, b as int));
            lemma_remaining_step(sources@, before, cursors@, b as int);
            lemma_take_head(taken, sources@, before, cursors@, b as int);
        }
    }
    proof {
        assert(prefixes(sources@, cursors@) =~= views(sources@)) by {
            assert forall|t: int| 0 <= t < sources@.len() implies prefixes(sources@, cursors@)[t]
                == views(sources@)[t] by {
                assert(sources@[t]@.take(cursors@[t] as int) =~= sources@[t]@);
            }
        }
    }
    out
}

proof fn lemma_nothing_taken(sources: Seq<Vec<Entry>>, cursors: Seq<usize>)
    requires
        cursors.len() == sources.len(),
        forall|t: int| 0 <= t < cursors.len() ==> #[trigger] cursors[t] == 0,
    ensures
        prefixes(sources, cursors).flatten() == Seq::<Entry>::empty(),
        Seq::<Entry>::empty().to_multiset() == prefixes(sources, cursors).flatten().to_multiset(),
        cursors_within(sources, cursors),
        out_before_rest(Seq::<Entry>::empty(), sources, cursors),
        sorted_entries(Seq::<Entry>::empty()),
    decreases sources.len(),
{
    let ps = prefixes(sources, cursors);
    if sources.len() == 0 {
        assert(ps.flatten() =~= Seq::<Entry>::empty());
    } else {
        lemma_nothing_taken(sources.drop_first(), cursors.drop_first());
        assert(ps.drop_first() =~= prefixes(sources.drop_first(), cursors.drop_first()));
        assert(ps.first() =~= Seq::<Entry>::empty());
        assert(ps.flatten() =~= Seq::<Entry>::empty());
    }
}

/// Taking the row that `pick_source` chose keeps what the merge maintains.
proof fn lemma_take_head(
    out: Seq<Entry>,
    sources: Seq<Vec<Entry>>,
    cursors: Seq<usize>,
    next: Seq<usize>,
    b: int,
)
    requires
        cursors_within(sources, cursors),
        advanced(cursors, next, b),
        cursors[b] < sources[b]@.len(),
        forall|t: int|
            0 <= t < sources.len() && cursors[t] < sources[t]@.len()
                ==> sources[b]@[cursors[b] as int].spec_le(#[trigger] sources[t]@[cursors[t] as int]),
        out.to_multiset() == prefixes(sources, cursors).flatten().to_multiset(),
        all_sorted(sources) ==> sorted_entries(out) && out_before_rest(out, sources, cursors),
    ensures
        ({
            let head = sources[b]@[cursors[b] as int];
            &&& cursors_within(sources, next)
            &&& out.push(head).to_multiset() == prefixes(sources, next).flatten().to_multiset()
            &&& all_sorted(sources) ==> sorted_entries(out.push(head)) && out_before_rest(
                out.push(head),
                sources,
                next,
            )
        }),
{
    let head = sources[b]@[cursors[b] as int];
    let ps = prefixes(sources, cursors);
    assert(prefixes(sources, next) =~= ps.update(b, ps[b].push(head))) by {
        assert(sources[b]@.take(cursors[b] + 1) =~= sources[b]@.take(cursors[b] as int).push(head));
    }
    lemma_flatten_grows(ps, b, head);
    to_multiset_build(out, head);
    if all_sorted(sources) {
        let grown = out.push(head);
        assert forall|i: int, j: int| 0 <= i < j < grown.len()
            implies (#[trigger] grown[i]).spec_le(
            #[trigger] grown[j],
        ) by {
            if j == out.len() {
                assert(out[i].spec_le(sources[b]@[cursors[b] as int]));
            } else {
                assert(out[i].spec_le(out[j]));
            }
        }
        assert forall|k: int, s: int, i: int|
            0 <= k < grown.len() && 0 <= s < sources.len() && next[s] <= i
                < sources[s]@.len() implies (#[trigger] grown[k]).spec_le(
            #[trigger] sources[s]@[i],
        ) by {
            if k < out.len() {
                assert(out[k].spec_le(sources[s]@[i]));
            } else {
                let first = sources[s]@[cursors[s] as int];
                assert(head.spec_le(first));
                assert(sorted_entries(sources[s]@));
                if cursors[s] < i {
                    assert(first.spec_le(sources[s]@[i]));
                }
            }
        }
    }
}

/// A sorted stream that holds every row of the sources exactly once.
pub struct MergeIterator {
    pub sources: Vec<Vec<Entry>>,
}

impl MergeIterator {
    pub fn new(sources: Vec<Vec<Entry>>) -> (iter: MergeIterator)
        ensures
            iter.sources == sources,
    {
        MergeIterator { sources }
    }

    /// All rows of the merged stream.
    pub fn collect(&self) -> (out: Vec<Entry>)
        ensures
            out@.to_multiset() == all_entries(self.sources@).to_multiset(),
            all_sorted(self.sources@) ==> sorted_entries(out@),
    {
        merge(&self.sources)
    }
}

} // verus!
