//! Quick sort with the last element of each range as pivot, and two scan
//! pointers that close in on each other.

use vstd::prelude::*;
use crate::algorithms::engine::{
    lemma_replay_verify_log, lemma_strict_passes, passes_verification, placement_log, verify_log,
    Sorting,
};
use crate::event::Emission;
use crate::sequence::{
    ascending, exchanged, fits_events, identity, is_permutation_of_range,
    lemma_ascending_distinct_is_strict, lemma_ascending_permutation, lemma_exchanged_multiset,
    lemma_range_keeps_values, lemma_replay_concat, lemma_replay_push,
    lemma_same_values_no_duplicates, only_moves, replay, strictly_ascending, swap_emission,
    MAX_SIZE,
};

verus! {

/// Where the low pointer comes to rest when it starts at `from`: at the first
/// index whose value is not below the pivot's, and at the pivot at the latest.
pub open spec fn scan_up(s: Seq<usize>, from: int, pivot: int) -> int
    decreases pivot - from,
{
    if 0 <= from < pivot && s[from] < s[pivot] {
        scan_up(s, from + 1, pivot)
    } else {
        from
    }
}

/// Where the high pointer comes to rest when it starts at `from`: at the last
/// index whose value is not above the pivot's, or at -1 if there is none.
pub open spec fn scan_down(s: Seq<usize>, from: int, pivot: int) -> int
    decreases from + 1,
{
    if 0 <= from && s[from] > s[pivot] {
        scan_down(s, from - 1, pivot)
    } else {
        from
    }
}

/// The low pointer never moves down, and stops at the pivot at the latest.
pub proof fn lemma_scan_up_bounds(s: Seq<usize>, from: int, pivot: int)
    ensures
        from <= scan_up(s, from, pivot),
        from <= pivot ==> scan_up(s, from, pivot) <= pivot,
    decreases pivot - from,
{
    if 0 <= from < pivot && s[from] < s[pivot] {
        lemma_scan_up_bounds(s, from + 1, pivot);
    }
}

/// The high pointer never moves up, and stops at -1 at the latest.
pub proof fn lemma_scan_down_bounds(s: Seq<usize>, from: int, pivot: int)
    ensures
        scan_down(s, from, pivot) <= from,
        -1 <= from ==> -1 <= scan_down(s, from, pivot),
    decreases from + 1,
{
    if 0 <= from && s[from] > s[pivot] {
        lemma_scan_down_bounds(s, from - 1, pivot);
    }
}

/// The swaps of the scan phase, from a state in which the low pointer rests at
/// `store` and the high pointer at `last`: both pointers advance, and as long
/// as they have not met, the two values they stopped at are exchanged.
pub open spec fn crossing_swaps(s: Seq<usize>, store: int, last: int, pivot: int) -> Seq<Emission>
    decreases last - store,
    via crossing_swaps_decreases
{
    let up = scan_up(s, store + 1, pivot);
    let down = scan_down(s, last - 1, pivot);
    if up < down {
        seq![swap_emission(up, down)] + crossing_swaps(exchanged(s, up, down), up, down, pivot)
    } else {
        Seq::empty()
    }
}

#[via_fn]
proof fn crossing_swaps_decreases(s: Seq<usize>, store: int, last: int, pivot: int) {
    lemma_scan_up_bounds(s, store + 1, pivot);
    lemma_scan_down_bounds(s, last - 1, pivot);
}

/// Where the low pointer rests when the pointers have met, from the same state
/// as in `crossing_swaps`.
pub open spec fn crossing_point(s: Seq<usize>, store: int, last: int, pivot: int) -> int
    decreases last - store,
    via crossing_point_decreases
{
    let up = scan_up(s, store + 1, pivot);
    let down = scan_down(s, last - 1, pivot);
    if up < down {
        crossing_point(exchanged(s, up, down), up, down, pivot)
    } else {
        up
    }
}

#[via_fn]
proof fn crossing_point_decreases(s: Seq<usize>, store: int, last: int, pivot: int) {
    lemma_scan_up_bounds(s, store + 1, pivot);
    lemma_scan_down_bounds(s, last - 1, pivot);
}

/// The pointers meet behind `store` and not behind the pivot.
pub proof fn lemma_crossing_point_bounds(s: Seq<usize>, store: int, last: int, pivot: int)
    requires
        store < pivot,
        last <= pivot,
    ensures
        store < crossing_point(s, store, last, pivot) <= pivot,
    decreases last - store,
{
    let up = scan_up(s, store + 1, pivot);
    let down = scan_down(s, last - 1, pivot);
    lemma_scan_up_bounds(s, store + 1, pivot);
    lemma_scan_down_bounds(s, last - 1, pivot);
    if up < down {
        lemma_crossing_point_bounds(exchanged(s, up, down), up, down, pivot);
    }
}

/// The index at which partitioning `s[low ..= high]` leaves the pivot.
pub open spec fn partition_point(s: Seq<usize>, low: int, high: int) -> int {
    crossing_point(s, low - 1, high, high)
}

/// What partitioning `s[low ..= high]` queues: the swaps of the scan phase,
/// then the swap that moves the pivot to its place.
pub open spec fn partition_log(s: Seq<usize>, low: int, high: int) -> Seq<Emission> {
    crossing_swaps(s, low - 1, high, high).push(
        swap_emission(partition_point(s, low, high), high),
    )
}

/// What sorting `s[low ..= high]` queues: nothing for a range of at most one
/// value; else the partition, then the part below the pivot, then the part
/// above it, each on the sequence as the steps before have left it.
pub open spec fn quick_sort_log(s: Seq<usize>, low: int, high: int) -> Seq<Emission>
    decreases high - low + 1,
    via quick_sort_log_decreases
{
    if low < high {
        let split = partition_log(s, low, high);
        let p = partition_point(s, low, high);
        let parted = replay(split, s);
        let left = quick_sort_log(parted, low, p - 1);
        let right = quick_sort_log(replay(left, parted), p + 1, high);
        split + left + right
    } else {
        Seq::empty()
    }
}

#[via_fn]
proof fn quick_sort_log_decreases(s: Seq<usize>, low: int, high: int) {
    if low < high {
        lemma_crossing_point_bounds(s, low - 1, high, high);
    }
}

/// The scan phase of a partition queues nothing but swaps.
pub proof fn lemma_crossing_only_moves(s: Seq<usize>, store: int, last: int, pivot: int)
    ensures
        only_moves(crossing_swaps(s, store, last, pivot)),
    decreases last - store,
{
    let up = scan_up(s, store + 1, pivot);
    let down = scan_down(s, last - 1, pivot);
    lemma_scan_up_bounds(s, store + 1, pivot);
    lemma_scan_down_bounds(s, last - 1, pivot);
    if up < down {
        lemma_crossing_only_moves(exchanged(s, up, down), up, down, pivot);
    }
}

/// A quick sort queues nothing but swaps.
pub proof fn lemma_quick_sort_only_moves(s: Seq<usize>, low: int, high: int)
    ensures
        only_moves(quick_sort_log(s, low, high)),
    decreases high - low + 1,
{
    if low < high {
        let split = partition_log(s, low, high);
        let p = partition_point(s, low, high);
        let parted = replay(split, s);
        let left = quick_sort_log(parted, low, p - 1);
        lemma_crossing_point_bounds(s, low - 1, high, high);
        lemma_crossing_only_moves(s, low - 1, high, high);
        lemma_quick_sort_only_moves(parted, low, p - 1);
        lemma_quick_sort_only_moves(replay(left, parted), p + 1, high);
    }
}

/// The low pointer passes smaller values only, and rests before the pivot
/// only on a value that is not smaller.
pub proof fn lemma_scan_up_rests(s: Seq<usize>, from: int, pivot: int)
    requires
        0 <= from <= pivot,
    ensures
        from <= scan_up(s, from, pivot) <= pivot,
        forall|k: int| from <= k < scan_up(s, from, pivot) ==> s[k] < s[pivot],
        scan_up(s, from, pivot) < pivot ==> s[scan_up(s, from, pivot)] >= s[pivot],
    decreases pivot - from,
{
    if from < pivot && s[from] < s[pivot] {
        lemma_scan_up_rests(s, from + 1, pivot);
    }
}

/// The high pointer passes larger values only, and rests inside the sequence
/// only on a value that is not larger.
pub proof fn lemma_scan_down_rests(s: Seq<usize>, from: int, pivot: int)
    requires
        -1 <= from,
    ensures
        -1 <= scan_down(s, from, pivot) <= from,
        forall|k: int| scan_down(s, from, pivot) < k <= from ==> s[k] > s[pivot],
        scan_down(s, from, pivot) >= 0 ==> s[scan_down(s, from, pivot)] <= s[pivot],
    decreases from + 1,
{
    if 0 <= from && s[from] > s[pivot] {
        lemma_scan_down_rests(s, from - 1, pivot);
    }
}

/// What the scan phase achieves, from a state in which nothing larger than
/// the pivot stands at or below `store` and nothing smaller at or above
/// `last`: the pointers meet at a point with nothing larger below it and
/// nothing smaller from it on, and only values of the range below the pivot
/// have moved.
proof fn lemma_crossing_splits(s: Seq<usize>, store: int, last: int, low: int, high: int)
    requires
        s.len() <= MAX_SIZE,
        0 <= low <= high < s.len(),
        low - 1 <= store < last <= high,
        forall|k: int| low <= k <= store ==> s[k] <= s[high],
        forall|k: int| last <= k < high ==> s[k] >= s[high],
    ensures
        ({
            let after = replay(crossing_swaps(s, store, last, high), s);
            let p = crossing_point(s, store, last, high);
            &&& after.len() == s.len()
            &&& after.to_multiset() == s.to_multiset()
            &&& forall|k: int| 0 <= k < s.len() && !(low <= k < high) ==> after[k] == s[k]
            &&& store < p <= high
            &&& forall|k: int| low <= k < p ==> after[k] <= s[high]
            &&& forall|k: int| p <= k <= high ==> after[k] >= s[high]
        }),
    decreases last - store,
{
    let up = scan_up(s, store + 1, high);
    let down = scan_down(s, last - 1, high);
    lemma_scan_up_rests(s, store + 1, high);
    lemma_scan_down_rests(s, last - 1, high);
    if up < down {
        let next = exchanged(s, up, down);
        let step = seq![swap_emission(up, down)];
        let rest = crossing_swaps(next, up, down, high);
        lemma_crossing_splits(next, up, down, low, high);
        lemma_exchanged_multiset(s, up, down);
        lemma_replay_concat(step, rest, s);
        lemma_replay_push(Seq::empty(), swap_emission(up, down), s);
        assert(Seq::<Emission>::empty().push(swap_emission(up, down)) =~= step);
    }
}

/// What a partition achieves: the pivot stands at the partition point, with
/// nothing larger below it in the range and nothing smaller above it, and
/// only values of the range have moved.
pub proof fn lemma_partition_splits(s: Seq<usize>, low: int, high: int)
    requires
        s.len() <= MAX_SIZE,
        0 <= low <= high < s.len(),
    ensures
        ({
            let after = replay(partition_log(s, low, high), s);
            let p = partition_point(s, low, high);
            &&& after.len() == s.len()
            &&& after.to_multiset() == s.to_multiset()
            &&& forall|k: int| 0 <= k < s.len() && !(low <= k <= high) ==> after[k] == s[k]
            &&& low <= p <= high
            &&& after[p] == s[high]
            &&& forall|k: int| low <= k < p ==> after[k] <= after[p]
            &&& forall|k: int| p < k <= high ==> after[p] <= after[k]
        }),
{
    let scans = crossing_swaps(s, low - 1, high, high);
    let p = partition_point(s, low, high);
    let crossed = replay(scans, s);
    lemma_crossing_splits(s, low - 1, high, low, high);
    lemma_replay_push(scans, swap_emission(p, high), s);
    lemma_exchanged_multiset(crossed, p, high);
}

/// The swaps of a quick sort of `low ..= high` put the values of that range
/// in ascending order, and move no other value.
pub proof fn lemma_quick_sort_log_sorts(s: Seq<usize>, low: int, high: int)
    requires
        s.len() <= MAX_SIZE,
        low < high ==> 0 <= low && high < s.len(),
    ensures
        ({
            let after = replay(quick_sort_log(s, low, high), s);
            &&& after.len() == s.len()
            &&& after.to_multiset() == s.to_multiset()
            &&& forall|k: int| 0 <= k < s.len() && !(low <= k <= high) ==> after[k] == s[k]
            &&& forall|i: int, j: int| low <= i < j <= high ==> after[i] <= after[j]
        }),
    decreases high - low + 1,
{
    if low < high {
        let split = partition_log(s, low, high);
        let p = partition_point(s, low, high);
        let parted = replay(split, s);
        let left = quick_sort_log(parted, low, p - 1);
        let halfway = replay(left, parted);
        let right = quick_sort_log(halfway, p + 1, high);
        let after = replay(right, halfway);
        lemma_partition_splits(s, low, high);
        lemma_quick_sort_log_sorts(parted, low, p - 1);
        lemma_quick_sort_log_sorts(halfway, p + 1, high);
        lemma_replay_concat(split, left, s);
        lemma_replay_concat(split + left, right, s);
        lemma_range_keeps_values(parted, halfway, low, p - 1);
        lemma_range_keeps_values(halfway, after, p + 1, high);
        assert forall|k: int| low <= k < p implies after[k] <= after[p] by {
            assert(parted.subrange(low, p).contains(halfway[k]));
        }
        assert forall|k: int| p < k <= high implies after[p] <= after[k] by {
            assert(halfway.subrange(p + 1, high + 1).contains(after[k]));
        }
    }
}

/// Quick sort over a sequence engine of its own.
pub struct QuickSort {
    sorting: Sorting,
}

impl View for QuickSort {
    type V = Sorting;

    /// The engine that the strategy drives.
    closed spec fn view(&self) -> Sorting {
        self.sorting
    }
}

impl QuickSort {
    /// The engine that the strategy drives.
    pub fn engine(&self) -> (engine: &Sorting)
        ensures
            *engine == self@,
    {
        &self.sorting
    }

    /// Splits `low ..= high` around the value that stands at `high`: when it
    /// returns `p`, that value stands at `p`, nothing larger stands below `p`
    /// in the range and nothing smaller above it. Only swaps move values, and
    /// only inside the range.
    pub fn partition(&mut self, low: isize, high: isize) -> (p: isize)
        requires
            old(self)@.wf(),
            0 <= low <= high < old(self)@.sequence().len(),
        ensures
            final(self)@.wf(),
            final(self)@.capacity() == old(self)@.capacity(),
            low <= p <= high,
            p == partition_point(old(self)@.sequence(), low as int, high as int),
            final(self)@.log() == old(self)@.log() + partition_log(
                old(self)@.sequence(),
                low as int,
                high as int,
            ),
            final(self)@.sequence() == replay(
                partition_log(old(self)@.sequence(), low as int, high as int),
                old(self)@.sequence(),
            ),
            final(self)@.sequence().len() == old(self)@.sequence().len(),
            final(self)@.sequence().to_multiset() == old(self)@.sequence().to_multiset(),
            forall|k: int|
                0 <= k < old(self)@.sequence().len() && !(low <= k <= high)
                    ==> final(self)@.sequence()[k] == old(self)@.sequence()[k],
            final(self)@.sequence()[p as int] == old(self)@.sequence()[high as int],
            forall|k: int| low <= k < p ==> final(self)@.sequence()[k] <= final(self)@.sequence()[p as int],
            forall|k: int| p < k <= high ==> final(self)@.sequence()[p as int] <= final(self)@.sequence()[k],
    {
        let pivot = high as usize;
        let mut store_index = low - 1;
        let mut last_index = high;
        let ghost s0 = self@.sequence();
        let ghost log0 = self@.log();
        let ghost done: Seq<Emission> = Seq::empty();

        loop
            invariant_except_break
                low - 1 <= store_index < last_index <= high,
                crossing_swaps(s0, low - 1, high as int, high as int) == done + crossing_swaps(
                    self@.sequence(),
                    store_index as int,
                    last_index as int,
                    high as int,
                ),
                crossing_point(s0, low - 1, high as int, high as int) == crossing_point(
                    self@.sequence(),
                    store_index as int,
                    last_index as int,
                    high as int,
                ),
            invariant
                self@.wf(),
                self@.capacity() == old(self)@.capacity(),
                s0 == old(self)@.sequence(),
                log0 == old(self)@.log(),
                pivot == high,
                0 <= low <= high < s0.len(),
                self@.sequence().len() == s0.len(),
                self@.log() == log0 + done,
                self@.sequence() == replay(done, s0),
            ensures
                low <= store_index <= high,
                crossing_swaps(s0, low - 1, high as int, high as int) == done,
                crossing_point(s0, low - 1, high as int, high as int) == store_index,
            decreases last_index - store_index,
        {
            let ghost cur = self@.sequence();
            let ghost store0 = store_index as int;
            let ghost last0 = last_index as int;

            store_index += 1;
            while self.sorting.values()[store_index as usize] < self.sorting.values()[pivot]
                invariant
                    self@.sequence() == cur,
                    pivot == high,
                    0 <= low <= high < cur.len(),
                    low <= store0 + 1 <= store_index <= high,
                    scan_up(cur, store0 + 1, high as int) == scan_up(
                        cur,
                        store_index as int,
                        high as int,
                    ),
                decreases high - store_index,
            {
                store_index += 1;
            }

            last_index -= 1;
            while last_index >= 0 && self.sorting.values()[last_index as usize]
                > self.sorting.values()[pivot]
                invariant
                    self@.sequence() == cur,
                    pivot == high,
                    0 <= low <= high < cur.len(),
                    -1 <= last_index <= last0 - 1 < high,
                    scan_down(cur, last0 - 1, high as int) == scan_down(
                        cur,
                        last_index as int,
                        high as int,
                    ),
                decreases last_index + 1,
            {
                last_index -= 1;
            }

            if store_index >= last_index {
                break ;
            } else {
                self.sorting.swap_items(store_index as usize, last_index as usize);
                proof {
                    let step = swap_emission(store_index as int, last_index as int);
                    lemma_replay_push(done, step, s0);
                    assert(done + (seq![step] + crossing_swaps(
                        self@.sequence(),
                        store_index as int,
                        last_index as int,
                        high as int,
                    )) =~= done.push(step) + crossing_swaps(
                        self@.sequence(),
                        store_index as int,
                        last_index as int,
                        high as int,
                    ));
                    done = done.push(step);
                }
            }
        }
        self.sorting.swap_items(store_index as usize, pivot);
        proof {
            lemma_replay_push(done, swap_emission(store_index as int, high as int), s0);
            lemma_partition_splits(s0, low as int, high as int);
        }
        store_index
    }

    /// Sorts `low ..= high`. A range of at most one value is left alone; any
    /// other is partitioned, then the part below the pivot is sorted, then the
    /// part above it.
    pub fn quick_sort(&mut self, low: isize, high: isize)
        requires
            old(self)@.wf(),
            low < high ==> 0 <= low && high < old(self)@.sequence().len(),
        ensures
            final(self)@.wf(),
            final(self)@.capacity() == old(self)@.capacity(),
            final(self)@.log() == old(self)@.log() + quick_sort_log(
                old(self)@.sequence(),
                low as int,
                high as int,
            ),
            final(self)@.sequence() == replay(
                quick_sort_log(old(self)@.sequence(), low as int, high as int),
                old(self)@.sequence(),
            ),
            final(self)@.sequence().len() == old(self)@.sequence().len(),
            final(self)@.sequence().to_multiset() == old(self)@.sequence().to_multiset(),
            forall|k: int|
                0 <= k < old(self)@.sequence().len() && !(low <= k <= high)
                    ==> final(self)@.sequence()[k] == old(self)@.sequence()[k],
            forall|i: int, j: int|
                low <= i < j <= high ==> final(self)@.sequence()[i] <= final(self)@.sequence()[j],
        decreases high - low + 1,
    {
        if low < high {
            let ghost s0 = self@.sequence();
            let ghost log0 = self@.log();
            let p = self.partition(low, high);
            let ghost s1 = self@.sequence();
            let ghost split = partition_log(s0, low as int, high as int);
            self.quick_sort(low, p - 1);
            let ghost s2 = self@.sequence();
            let ghost left = quick_sort_log(s1, low as int, p - 1);
            self.quick_sort(p + 1, high);
            let ghost right = quick_sort_log(s2, p + 1, high as int);
            proof {
                assert(self@.log() == log0 + (split + left + right)) by {
                    assert(((log0 + split) + left) + right =~= log0 + ((split + left) + right));
                }
                lemma_replay_concat(split, left, s0);
                lemma_replay_concat(split + left, right, s0);
            }
        }
        proof {
            lemma_quick_sort_log_sorts(old(self)@.sequence(), low as int, high as int);
        }
    }

    /// Sorts the whole sequence and then verifies it once. The values end in
    /// ascending order, which for values without duplicates is strictly
    /// ascending order and passes the verification. What is queued during the
    /// run is the log of the quick sort followed by that of the verification,
    /// and replaying it against the sequence before the run gives the sequence
    /// after it.
    pub fn sort(&mut self)
        requires
            old(self)@.wf(),
            old(self)@.sequence().len() >= 1,
        ensures
            final(self)@.wf(),
            final(self)@.capacity() == old(self)@.capacity(),
            ascending(final(self)@.sequence()),
            final(self)@.sequence().to_multiset() == old(self)@.sequence().to_multiset(),
            final(self)@.sequence().len() == old(self)@.sequence().len(),
            old(self)@.sequence().no_duplicates() ==> strictly_ascending(final(self)@.sequence())
                && passes_verification(final(self)@.sequence()),
            is_permutation_of_range(old(self)@.sequence()) ==> is_permutation_of_range(
                final(self)@.sequence(),
            ) && strictly_ascending(final(self)@.sequence()) && final(self)@.sequence() == identity(
                old(self)@.sequence().len(),
            ),
            final(self)@.log() == old(self)@.log() + quick_sort_log(
                old(self)@.sequence(),
                0,
                old(self)@.sequence().len() - 1,
            ) + verify_log(final(self)@.sequence()),
            final(self)@.sequence() == replay(
                quick_sort_log(old(self)@.sequence(), 0, old(self)@.sequence().len() - 1),
                old(self)@.sequence(),
            ),
            final(self)@.sequence() == replay(
                final(self)@.log().skip(old(self)@.log().len() as int),
                old(self)@.sequence(),
            ),
    {
        let ghost s0 = self@.sequence();
        let ghost log0 = self@.log();
        let len = self.sorting.values().len();
        self.quick_sort(0, (len - 1) as isize);
        let ghost sorted = self@.sequence();
        self.sorting.verify();
        proof {
            let moves = quick_sort_log(s0, 0, len - 1);
            let checks = verify_log(sorted);
            if s0.no_duplicates() {
                lemma_same_values_no_duplicates(s0, sorted);
                lemma_ascending_distinct_is_strict(sorted);
                lemma_strict_passes(sorted);
            }
            if is_permutation_of_range(s0) {
                lemma_ascending_permutation(sorted);
            }
            assert(self@.log().skip(log0.len() as int) =~= moves + checks);
            lemma_replay_concat(moves, checks, s0);
            lemma_replay_verify_log(sorted, sorted);
        }
    }

    /// A strategy over the given values, which are placed as they stand.
    pub fn from_sequence(values: Vec<usize>) -> (strategy: Self)
        requires
            fits_events(values@),
        ensures
            strategy@.wf(),
            strategy@.sequence() == values@,
            strategy@.log() == placement_log(values@),
            strategy@.capacity() == values@.len(),
    {
        let mut sorting = Sorting::new(values.len() as u16);
        sorting.replace(values);
        Self { sorting }
    }

    /// A strategy over a random permutation of `0 .. size`, freshly placed.
    pub fn new(size: u16) -> (strategy: Self)
        ensures
            strategy@.wf(),
            strategy@.capacity() == size,
            strategy@.sequence().len() == size,
            is_permutation_of_range(strategy@.sequence()),
            strategy@.log() == placement_log(strategy@.sequence()),
    {
        let mut sorting = Sorting::new(size);
        sorting.randomize();
        Self { sorting }
    }
}

} // verus!
