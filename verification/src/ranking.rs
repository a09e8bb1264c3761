//! Ranking the members of a population by fitness.

use rayon::slice::ParallelSliceMut;
use vstd::prelude::*;
use vstd::relations::{sorted_by, total_ordering};
use vstd::seq_lib::lemma_sorted_unique;

verus! {

/// A fitness and the position of the member that has it.
pub type Entry = (u128, usize);

/// `a` comes no later than `b`: a smaller fitness first and, among equal
/// ones, the smaller position.
pub open spec fn precedes(a: Entry, b: Entry) -> bool {
    a.0 < b.0 || (a.0 == b.0 && a.1 <= b.1)
}

/// [`precedes`] as a relation.
pub open spec fn order() -> spec_fn(Entry, Entry) -> bool {
    |a: Entry, b: Entry| precedes(a, b)
}

/// `ranking` holds what `entries` holds, in ascending order.
pub open spec fn is_ranking(ranking: Seq<Entry>, entries: Seq<Entry>) -> bool {
    &&& sorted_by(ranking, order())
    &&& ranking.to_multiset() == entries.to_multiset()
}

/// The entries of the first `m` scores that are present, by position.
pub open spec fn valid_entries(scores: Seq<Option<u128>>, m: int) -> Seq<Entry>
    decreases m,
{
    if m <= 0 {
        Seq::empty()
    } else {
        match scores[m - 1] {
            Some(score) => valid_entries(scores, m - 1).push((score, (m - 1) as usize)),
            None => valid_entries(scores, m - 1),
        }
    }
}

/// The order of entries is total.
pub proof fn lemma_order_total()
    ensures
        total_ordering(order()),
{
    assert forall|x: Entry, y: Entry| #[trigger] order()(x, y) && #[trigger] order()(y, x) implies x
        == y by {}
}

/// Entries have only one ranking.
pub proof fn lemma_ranking_unique(first: Seq<Entry>, second: Seq<Entry>, entries: Seq<Entry>)
    requires
        is_ranking(first, entries),
        is_ranking(second, entries),
    ensures
        first == second,
{
    lemma_order_total();
    lemma_sorted_unique(first, second, order());
}

/// In a ranking no fitness is greater than a later one.
pub proof fn lemma_ranking_ascending(ranking: Seq<Entry>, entries: Seq<Entry>)
    requires
        is_ranking(ranking, entries),
    ensures
        forall|i: int, j: int| 0 <= i < j < ranking.len() ==> ranking[i].0 <= ranking[j].0,
{
    assert forall|i: int, j: int| 0 <= i < j < ranking.len() implies ranking[i].0 <= ranking[j].0 by {
        assert(order()(ranking[i], ranking[j]));
    }
}

/// An entry is valid exactly if its position is below `m` and its fitness is
/// the score at that position; no more entries are valid than there are
/// scores.
pub proof fn lemma_valid_entries(scores: Seq<Option<u128>>, m: int)
    requires
        0 <= m <= scores.len(),
        m <= usize::MAX,
    ensures
        valid_entries(scores, m).len() <= m,
        forall|e: Entry|
            valid_entries(scores, m).contains(e) <==> e.1 < m && scores[e.1 as int] == Some(e.0),
    decreases m,
{
    if m > 0 {
        lemma_valid_entries(scores, m - 1);
        let before = valid_entries(scores, m - 1);
        let now = valid_entries(scores, m);
        assert forall|e: Entry| now.contains(e) <==> e.1 < m && scores[e.1 as int] == Some(
            e.0,
        ) by {
            match scores[m - 1] {
                Some(score) => {
                    let added: Entry = (score, (m - 1) as usize);
                    assert(now == before.push(added));
                    if now.contains(e) {
                        let i = now.index_of(e);
                        if i < before.len() {
                            assert(before[i] == e);
                            assert(before.contains(e));
                        }
                    }
                    if e.1 < m && scores[e.1 as int] == Some(e.0) {
                        if e.1 == m - 1 {
                            assert(now[now.len() - 1] == e);
                        } else {
                            assert(before.contains(e));
                            let i = before.index_of(e);
                            assert(now[i] == e);
                        }
                    }
                },
                None => {},
            }
        }
    }
}

/// `rayon::slice::ParallelSliceMut::par_sort_unstable` on entries: afterwards
/// the vector holds what it held, in ascending order of the tuples.
#[verifier::external_body]
pub(crate) fn sort_entries(entries: &mut Vec<Entry>)
    ensures
        is_ranking(final(entries)@, old(entries)@),
{
    entries.par_sort_unstable();
}

/// The present ones among the first `m` scores, each with its position, in
/// ascending order.
pub fn rank(scores: &[Option<u128>], m: usize) -> (ranking: Vec<Entry>)
    requires
        m <= scores@.len(),
    ensures
        is_ranking(ranking@, valid_entries(scores@, m as int)),
        ranking@.len() == valid_entries(scores@, m as int).len(),
        ranking@.len() <= m,
        forall|r: int|
            0 <= r < ranking@.len() ==> (#[trigger] ranking@[r]).1 < m && scores@[ranking@[r].1 as int]
                == Some(ranking@[r].0),
{
    let mut entries: Vec<Entry> = Vec::new();
    let mut i: usize = 0;
    while i < m
        invariant
            i <= m <= scores@.len(),
            entries@ == valid_entries(scores@, i as int),
        decreases m - i,
    {
        match scores[i] {
            Some(score) => {
                entries.push((score, i));
            },
            None => {},
        }
        i = i + 1;
    }
    let ghost valid = entries@;
    sort_entries(&mut entries);
    proof {
        lemma_valid_entries(scores@, m as int);
        valid.to_multiset_ensures();
        entries@.to_multiset_ensures();
        assert forall|r: int| 0 <= r < entries@.len() implies (#[trigger] entries@[r]).1 < m
            && scores@[entries@[r].1 as int] == Some(entries@[r].0) by {
            assert(entries@.contains(entries@[r]));
            assert(entries@.to_multiset().count(entries@[r]) > 0);
            assert(valid.to_multiset().count(entries@[r]) > 0);
            assert(valid.contains(entries@[r]));
        }
    }
    entries
}

} // verus!
