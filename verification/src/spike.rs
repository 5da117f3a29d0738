//! Spike events and the ordering utility: building the sorted spike train of
//! one neuron and merging the trains of many neurons into a single stream
//! sorted by timestamp.

use vstd::prelude::*;

verus! {

use vstd::relations::{sorted_by, total_ordering};
use vstd::seq_lib::{lemma_sorted_unique, to_multiset_insert, to_multiset_build};

/// A single firing event: neuron `neuron_id` fires at time `ts`.
#[derive(Clone, Copy, PartialEq, Eq, Structural, Debug)]
pub struct Spike {
    pub ts: u128,
    pub neuron_id: usize,
}

/// Total order on spikes: first by timestamp, ties broken by neuron id.
pub open spec fn spike_le(a: Spike, b: Spike) -> bool {
    a.ts < b.ts || (a.ts == b.ts && a.neuron_id <= b.neuron_id)
}

/// The same order as a first-class relation, for vstd's sorting vocabulary.
pub open spec fn spike_leq() -> spec_fn(Spike, Spike) -> bool {
    |a: Spike, b: Spike| spike_le(a, b)
}

/// A spike sequence is sorted when it is non-decreasing under `spike_le`;
/// in particular its timestamps are non-decreasing.
pub open spec fn spikes_sorted(s: Seq<Spike>) -> bool {
    sorted_by(s, spike_leq())
}

/// `spike_le` is reflexive, antisymmetric, transitive and strongly connected.
pub proof fn lemma_spike_le_total()
    ensures
        total_ordering(spike_leq()),
{
    assert forall|a: Spike, b: Spike| #[trigger] spike_leq()(a, b) && #[trigger] spike_leq()(
        b,
        a,
    ) implies a == b by {
        assert(a.ts == b.ts && a.neuron_id == b.neuron_id);
    }
}

/// Law: a set of spikes has exactly one sorted arrangement. Two sequences
/// holding the same spikes (with multiplicity) and both sorted by
/// `(ts, neuron_id)` are equal element by element.
pub proof fn lemma_sorted_arrangement_unique(a: Seq<Spike>, b: Seq<Spike>)
    requires
        spikes_sorted(a),
        spikes_sorted(b),
        a.to_multiset() == b.to_multiset(),
    ensures
        a == b,
{
    lemma_spike_le_total();
    lemma_sorted_unique(a, b, spike_leq());
}

/// Law: re-sorting an already sorted spike sequence changes nothing.
pub proof fn lemma_resort_noop(s: Seq<Spike>)
    requires
        spikes_sorted(s),
    ensures
        s.sort_by(spike_leq()) == s,
{
    s.lemma_sort_by_ensures(spike_leq());
    lemma_sorted_arrangement_unique(s.sort_by(spike_leq()), s);
}

/// The spikes of `ts_list` for one neuron, in the order given.
pub open spec fn spikes_of(ts_list: Seq<u128>, neuron_id: usize) -> Seq<Spike> {
    ts_list.map_values(|t: u128| Spike { ts: t, neuron_id })
}

/// The rows of a per-neuron spike matrix laid end to end, in row order.
pub open spec fn flatten_rows(rows: Seq<Seq<Spike>>) -> Seq<Spike>
    decreases rows.len(),
{
    if rows.len() == 0 {
        Seq::empty()
    } else {
        flatten_rows(rows.drop_last()) + rows.last()
    }
}

/// Exec comparison mirroring `spike_le`.
fn spike_le_exec(a: &Spike, b: &Spike) -> (r: bool)
    ensures
        r == spike_le(*a, *b),
{
    a.ts < b.ts || (a.ts == b.ts && a.neuron_id <= b.neuron_id)
}

/// Insert one spike into a sorted vector, keeping it sorted.
fn insert_sorted(v: &mut Vec<Spike>, x: Spike)
    requires
        spikes_sorted(old(v)@),
    ensures
        spikes_sorted(final(v)@),
        final(v)@.to_multiset() == old(v)@.to_multiset().insert(x),
        final(v)@.len() == old(v)@.len() + 1,
{
    broadcast use to_multiset_insert;

    let mut i: usize = 0;
    while i < v.len() && spike_le_exec(&v[i], &x)
        invariant
            i <= v@.len(),
            spikes_sorted(v@),
            forall|k: int| 0 <= k < i ==> spike_le(v@[k], x),
        decreases v@.len() - i,
    {
        i += 1;
    }
    let ghost before = v@;
    v.insert(i, x);
    proof {
        let new = v@;
        assert(new == before.insert(i as int, x));
        if (i as int) < before.len() {
            assert(spike_le(x, before[i as int]));
        }
        assert forall|p: int, q: int| 0 <= p < q < new.len() implies spike_leq()(
            new[p],
            new[q],
        ) by {
            if q < i {
                assert(spike_leq()(before[p], before[q]));
            } else if q == i {
                assert(new[q] == x);
                assert(spike_le(before[p], x));
            } else if p == i {
                assert(new[p] == x);
                if q - 1 > i {
                    assert(spike_leq()(before[i as int], before[q - 1]));
                }
                assert(spike_le(x, before[q - 1]));
            } else if p < i {
                assert(spike_le(before[p], x));
                if q - 1 > i {
                    assert(spike_leq()(before[i as int], before[q - 1]));
                }
                assert(spike_le(x, before[q - 1]));
            } else {
                assert(spike_leq()(before[p - 1], before[q - 1]));
            }
        }
    }
}

/// Sort a vector of spikes by `(ts, neuron_id)`. The result is exactly the
/// mathematical `sort_by` of the input under `spike_leq`.
fn sort_spikes(v: Vec<Spike>) -> (r: Vec<Spike>)
    ensures
        spikes_sorted(r@),
        r@.to_multiset() == v@.to_multiset(),
        r@.len() == v@.len(),
        r@ == v@.sort_by(spike_leq()),
{
    let mut r: Vec<Spike> = Vec::new();
    let mut i: usize = 0;
    proof {
        assert(v@.subrange(0, 0) =~= Seq::<Spike>::empty());
        assert(r@ =~= Seq::<Spike>::empty());
    }
    while i < v.len()
        invariant
            i <= v@.len(),
            spikes_sorted(r@),
            r@.len() == i,
            r@.to_multiset() == v@.subrange(0, i as int).to_multiset(),
        decreases v@.len() - i,
    {
        let ghost pre = v@.subrange(0, i as int);
        insert_sorted(&mut r, v[i]);
        proof {
            to_multiset_build(pre, v@[i as int]);
            assert(v@.subrange(0, i + 1) =~= pre.push(v@[i as int]));
        }
        i += 1;
    }
    proof {
        assert(v@.subrange(0, v@.len() as int) =~= v@);
        v@.lemma_sort_by_ensures(spike_leq());
        lemma_sorted_arrangement_unique(r@, v@.sort_by(spike_leq()));
    }
    r
}

impl Spike {
    /// A spike at time `ts` for neuron `neuron_id`.
    pub fn new(ts: u128, neuron_id: usize) -> (s: Spike)
        ensures
            s == (Spike { ts, neuron_id }),
    {
        Spike { ts, neuron_id }
    }

    /// The sorted spike train of one neuron, from its list of firing times
    /// in any order.
    pub fn spike_vec_for(neuron_id: usize, ts_vec: Vec<u128>) -> (r: Vec<Spike>)
        ensures
            r@ == spikes_of(ts_vec@, neuron_id).sort_by(spike_leq()),
            spikes_sorted(r@),
            r@.len() == ts_vec@.len(),
            r@.to_multiset() == spikes_of(ts_vec@, neuron_id).to_multiset(),
            forall|k: int| 0 <= k < r@.len() ==> r@[k].neuron_id == neuron_id,
    {
        broadcast use vstd::seq_lib::group_to_multiset_ensures;

        let mut unsorted: Vec<Spike> = Vec::new();
        let mut i: usize = 0;
        while i < ts_vec.len()
            invariant
                i <= ts_vec@.len(),
                unsorted@ == spikes_of(ts_vec@.subrange(0, i as int), neuron_id),
            decreases ts_vec@.len() - i,
        {
            unsorted.push(Spike::new(ts_vec[i], neuron_id));
            proof {
                assert(ts_vec@.subrange(0, i + 1) =~= ts_vec@.subrange(0, i as int).push(
                    ts_vec@[i as int],
                ));
                assert(unsorted@ =~= spikes_of(ts_vec@.subrange(0, i + 1), neuron_id));
            }
            i += 1;
        }
        proof {
            assert(ts_vec@.subrange(0, ts_vec@.len() as int) =~= ts_vec@);
        }
        let r = sort_spikes(unsorted);
        proof {
            assert forall|k: int| 0 <= k < r@.len() implies r@[k].neuron_id == neuron_id by {
                assert(r@.to_multiset().contains(r@[k]));
                let s = spikes_of(ts_vec@, neuron_id);
                assert(s.contains(r@[k]));
            }
        }
        r
    }

    /// Merge the spike trains of many neurons into one stream sorted by
    /// `(ts, neuron_id)`: exactly the union of the rows, re-ordered and not
    /// deduplicated. Empty rows contribute nothing, and merging no rows at
    /// all yields an empty stream. A single already sorted row comes back
    /// unchanged.
    pub fn create_terminal_vec(spikes: Vec<Vec<Spike>>) -> (r: Vec<Spike>)
        ensures
            r@ == flatten_rows(spikes@.map_values(|row: Vec<Spike>| row@)).sort_by(spike_leq()),
            spikes_sorted(r@),
            r@.to_multiset() == flatten_rows(
                spikes@.map_values(|row: Vec<Spike>| row@),
            ).to_multiset(),
            r@.len() == flatten_rows(spikes@.map_values(|row: Vec<Spike>| row@)).len(),
            spikes@.len() == 0 ==> r@ == Seq::<Spike>::empty(),
            (spikes@.len() == 1 && spikes_sorted(spikes@[0]@)) ==> r@ == spikes@[0]@,
    {
        let ghost rows = spikes@.map_values(|row: Vec<Spike>| row@);
        let mut acc: Vec<Spike> = Vec::new();
        let mut i: usize = 0;
        while i < spikes.len()
            invariant
                i <= spikes@.len(),
                rows == spikes@.map_values(|row: Vec<Spike>| row@),
                acc@ == flatten_rows(rows.subrange(0, i as int)),
            decreases spikes@.len() - i,
        {
            let row = &spikes[i];
            let mut j: usize = 0;
            while j < row.len()
                invariant
                    j <= row@.len(),
                    i < spikes@.len(),
                    rows == spikes@.map_values(|r2: Vec<Spike>| r2@),
                    row@ == rows[i as int],
                    acc@ == flatten_rows(rows.subrange(0, i as int)) + row@.subrange(0, j as int),
                decreases row@.len() - j,
            {
                acc.push(row[j]);
                proof {
                    assert(row@.subrange(0, j + 1) =~= row@.subrange(0, j as int).push(
                        row@[j as int],
                    ));
                }
                j += 1;
            }
            proof {
                assert(row@.subrange(0, row@.len() as int) =~= row@);
                let pre = rows.subrange(0, i + 1);
                assert(pre.drop_last() =~= rows.subrange(0, i as int));
                assert(pre.last() == rows[i as int]);
                assert(rows[i as int] == row@);
                assert(flatten_rows(pre) == flatten_rows(rows.subrange(0, i as int)) + row@);
            }
            i += 1;
        }
        proof {
            assert(rows.subrange(0, rows.len() as int) =~= rows);
        }
        let r = sort_spikes(acc);
        proof {
            if spikes@.len() == 0 {
                assert(rows.len() == 0);
                assert(r@.len() == 0);
                assert(r@ =~= Seq::<Spike>::empty());
            }
            if spikes@.len() == 1 && spikes_sorted(spikes@[0]@) {
                assert(rows.last() == spikes@[0]@);
                assert(rows.drop_last() =~= Seq::<Seq<Spike>>::empty());
                assert(flatten_rows(rows.drop_last()) == Seq::<Spike>::empty());
                assert(Seq::<Spike>::empty() + rows.last() =~= rows.last());
                assert(flatten_rows(rows) == spikes@[0]@);
                lemma_resort_noop(spikes@[0]@);
            }
        }
        r
    }
}

} // verus!
