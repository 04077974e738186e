//! The mathematical model of the sequence that is sorted: what a swap does to
//! it, what it means to replay a log of events against it, and when it counts
//! as ordered.

use vstd::prelude::*;
use vstd::seq_lib::*;
use crate::event::{Emission, Event};

verus! {

/// Pause after a visualized swap, in milliseconds.
pub const SWAP_TIME: u64 = 20;

/// The largest length, index and value that an event can carry.
pub const MAX_SIZE: usize = 65535;

/// `s` with the values at `i` and `j` exchanged.
pub open spec fn exchanged(s: Seq<usize>, i: int, j: int) -> Seq<usize> {
    s.update(i, s[j]).update(j, s[i])
}

/// What one event does to a sequence: a `Swap` inside the sequence exchanges
/// two values, every other event leaves the values alone.
pub open spec fn apply(event: Event, s: Seq<usize>) -> Seq<usize> {
    match event {
        Event::Swap { left, right } => if left < s.len() && right < s.len() {
            exchanged(s, left as int, right as int)
        } else {
            s
        },
        _ => s,
    }
}

/// The sequence that results from applying a log of emissions, oldest first,
/// to `s`.
pub open spec fn replay(log: Seq<Emission>, s: Seq<usize>) -> Seq<usize>
    decreases log.len(),
{
    if log.len() == 0 {
        s
    } else {
        apply(log.last().event, replay(log.drop_last(), s))
    }
}

/// The log moves values only: it holds swaps and verification steps.
pub open spec fn only_moves(log: Seq<Emission>) -> bool {
    forall|i: int|
        0 <= i < log.len() ==> (#[trigger] log[i]).event is Swap || log[i].event is VerifyStep
}

/// The emission of a visualized swap of the columns `i` and `j`.
pub open spec fn swap_emission(i: int, j: int) -> Emission {
    Emission { event: Event::Swap { left: i as u16, right: j as u16 }, pause_ms: SWAP_TIME }
}

/// No value is larger than a value to its right.
pub open spec fn ascending(s: Seq<usize>) -> bool {
    forall|i: int, j: int| 0 <= i < j < s.len() ==> s[i] <= s[j]
}

/// Every value is smaller than each value to its right.
pub open spec fn strictly_ascending(s: Seq<usize>) -> bool {
    forall|i: int, j: int| 0 <= i < j < s.len() ==> s[i] < s[j]
}

/// The numbers `0, 1, .., n - 1` in order.
pub open spec fn identity(n: nat) -> Seq<usize> {
    Seq::new(n, |i: int| i as usize)
}

/// `s` holds each of the numbers `0 .. s.len()` exactly once.
pub open spec fn is_permutation_of_range(s: Seq<usize>) -> bool {
    s.to_multiset() == identity(s.len()).to_multiset()
}

/// Every value fits into an event.
pub open spec fn fits_events(s: Seq<usize>) -> bool {
    &&& s.len() <= MAX_SIZE
    &&& forall|i: int| 0 <= i < s.len() ==> s[i] <= MAX_SIZE
}

/// Exchanging two values keeps the values that the sequence holds.
pub proof fn lemma_exchanged_multiset(s: Seq<usize>, i: int, j: int)
    requires
        0 <= i < s.len(),
        0 <= j < s.len(),
    ensures
        exchanged(s, i, j).to_multiset() == s.to_multiset(),
        exchanged(s, i, j).len() == s.len(),
{
    broadcast use vstd::multiset::group_multiset_axioms;

    let mid = s.update(i, s[j]);
    to_multiset_update(s, i, s[j]);
    to_multiset_update(mid, j, s[i]);
    s.to_multiset_ensures();
    assert(exchanged(s, i, j).to_multiset() =~= s.to_multiset());
}

/// Replaying a log that ends in `last` is replaying the rest and then applying
/// `last`.
pub proof fn lemma_replay_push(log: Seq<Emission>, last: Emission, s: Seq<usize>)
    ensures
        replay(log.push(last), s) == apply(last.event, replay(log, s)),
{
    assert(log.push(last).drop_last() =~= log);
}

/// Replaying two logs one after the other is replaying their concatenation.
pub proof fn lemma_replay_concat(first: Seq<Emission>, second: Seq<Emission>, s: Seq<usize>)
    ensures
        replay(first + second, s) == replay(second, replay(first, s)),
    decreases second.len(),
{
    if second.len() == 0 {
        assert(first + second =~= first);
    } else {
        lemma_replay_concat(first, second.drop_last(), s);
        assert((first + second).drop_last() =~= first + second.drop_last());
    }
}

/// A replay never changes which values the sequence holds, nor how many: what
/// was a permutation of `0 .. n` stays one.
pub proof fn lemma_replay_keeps_values(log: Seq<Emission>, s: Seq<usize>)
    ensures
        replay(log, s).to_multiset() == s.to_multiset(),
        replay(log, s).len() == s.len(),
        is_permutation_of_range(s) ==> is_permutation_of_range(replay(log, s)),
    decreases log.len(),
{
    if log.len() > 0 {
        lemma_replay_keeps_values(log.drop_last(), s);
        let before = replay(log.drop_last(), s);
        match log.last().event {
            Event::Swap { left, right } => {
                if left < before.len() && right < before.len() {
                    lemma_exchanged_multiset(before, left as int, right as int);
                }
            },
            _ => {},
        }
    }
}

/// A sequence with the same values as one without duplicates has none either.
pub proof fn lemma_same_values_no_duplicates(a: Seq<usize>, b: Seq<usize>)
    requires
        a.to_multiset() == b.to_multiset(),
        a.no_duplicates(),
    ensures
        b.no_duplicates(),
{
    a.lemma_multiset_has_no_duplicates();
    b.lemma_multiset_has_no_duplicates_conv();
}

/// A permutation of `0 .. n` holds no value twice, and none beyond `n - 1`.
pub proof fn lemma_permutation_elements(s: Seq<usize>)
    requires
        is_permutation_of_range(s),
        s.len() <= usize::MAX,
    ensures
        s.no_duplicates(),
        forall|i: int| 0 <= i < s.len() ==> s[i] < s.len(),
{
    let id = identity(s.len());
    assert forall|a: int, b: int| 0 <= a < id.len() && 0 <= b < id.len() && a != b implies id[a]
        != id[b] by {
        assert(id[a] == a);
        assert(id[b] == b);
    }
    lemma_same_values_no_duplicates(id, s);
    assert forall|i: int| 0 <= i < s.len() implies s[i] < s.len() by {
        s.to_multiset_ensures();
        id.to_multiset_ensures();
        assert(s.contains(s[i]));
        assert(s.to_multiset().count(s[i]) > 0);
        assert(id.to_multiset().count(s[i]) > 0);
        assert(id.contains(s[i]));
        let k = choose|k: int| 0 <= k < id.len() && id[k] == s[i];
        assert(id[k] == k);
    }
}

/// An ascending sequence without duplicates is strictly ascending.
pub proof fn lemma_ascending_distinct_is_strict(s: Seq<usize>)
    requires
        ascending(s),
        s.no_duplicates(),
    ensures
        strictly_ascending(s),
{
}

/// A log without a swap replays to the sequence it started from.
pub proof fn lemma_replay_without_swaps(log: Seq<Emission>, s: Seq<usize>)
    requires
        forall|i: int| 0 <= i < log.len() ==> !(#[trigger] log[i].event is Swap),
    ensures
        replay(log, s) == s,
    decreases log.len(),
{
    if log.len() > 0 {
        lemma_replay_without_swaps(log.drop_last(), s);
        assert(!(log[log.len() - 1].event is Swap));
    }
}

/// Where two sequences hold the same values and agree outside `low ..= high`,
/// each value in that range of the one also stands in that range of the
/// other.
pub proof fn lemma_range_keeps_values(a: Seq<usize>, b: Seq<usize>, low: int, high: int)
    requires
        a.len() == b.len(),
        0 <= low <= high + 1 <= a.len(),
        a.to_multiset() == b.to_multiset(),
        forall|k: int| 0 <= k < a.len() && !(low <= k <= high) ==> a[k] == b[k],
    ensures
        a.subrange(low, high + 1).to_multiset() == b.subrange(low, high + 1).to_multiset(),
        forall|k: int| low <= k <= high ==> a.subrange(low, high + 1).contains(#[trigger] b[k]),
{
    broadcast use vstd::multiset::group_multiset_axioms;

    let (a1, am, a3) = (a.subrange(0, low), a.subrange(low, high + 1), a.subrange(
        high + 1,
        a.len() as int,
    ));
    let (b1, bm, b3) = (b.subrange(0, low), b.subrange(low, high + 1), b.subrange(
        high + 1,
        b.len() as int,
    ));
    assert(a =~= (a1 + am) + a3);
    assert(b =~= (b1 + bm) + b3);
    assert(a1 =~= b1);
    assert(a3 =~= b3);
    lemma_multiset_commutative(a1, am);
    lemma_multiset_commutative(a1 + am, a3);
    lemma_multiset_commutative(b1, bm);
    lemma_multiset_commutative(b1 + bm, b3);
    assert forall|v: usize| am.to_multiset().count(v) == bm.to_multiset().count(v) by {
        assert(a.to_multiset().count(v) == a1.to_multiset().count(v) + am.to_multiset().count(v)
            + a3.to_multiset().count(v));
        assert(b.to_multiset().count(v) == b1.to_multiset().count(v) + bm.to_multiset().count(v)
            + b3.to_multiset().count(v));
    }
    assert(am.to_multiset() =~= bm.to_multiset());
    assert forall|k: int| low <= k <= high implies am.contains(#[trigger] b[k]) by {
        am.to_multiset_ensures();
        bm.to_multiset_ensures();
        assert(bm[k - low] == b[k]);
        assert(bm.contains(b[k]));
        assert(bm.to_multiset().count(b[k]) > 0);
    }
}

/// There is only one way to put given values in ascending order.
pub proof fn lemma_ascending_unique(a: Seq<usize>, b: Seq<usize>)
    requires
        ascending(a),
        ascending(b),
        a.to_multiset() == b.to_multiset(),
    ensures
        a == b,
{
    let leq = |x: usize, y: usize| x <= y;
    assert(vstd::relations::total_ordering(leq));
    assert(vstd::relations::sorted_by(a, leq));
    assert(vstd::relations::sorted_by(b, leq));
    lemma_sorted_unique(a, b, leq);
}

/// In ascending order, a permutation of `0 .. n` is `0, 1, .., n - 1`.
pub proof fn lemma_ascending_permutation(s: Seq<usize>)
    requires
        is_permutation_of_range(s),
        ascending(s),
        s.len() <= usize::MAX,
    ensures
        s == identity(s.len()),
        strictly_ascending(s),
{
    let id = identity(s.len());
    assert forall|i: int, j: int| 0 <= i < j < id.len() implies id[i] < id[j] by {
        assert(id[i] == i);
        assert(id[j] == j);
    }
    lemma_ascending_unique(s, id);
}

} // verus!
