//! Bubble sort: full passes over neighbouring pairs, until a pass finds
//! nothing to exchange.

use vstd::prelude::*;
use crate::algorithms::engine::{
    lemma_replay_verify_log, lemma_strict_passes, passes_verification, placement_log, verify_log,
    Sorting,
};
use crate::event::Emission;
use crate::sequence::{
    ascending, exchanged, fits_events, identity, is_permutation_of_range,
    lemma_ascending_distinct_is_strict, lemma_ascending_permutation, lemma_replay_concat,
    lemma_replay_keeps_values, lemma_replay_push, lemma_same_values_no_duplicates, only_moves,
    replay, strictly_ascending, swap_emission, MAX_SIZE,
};

verus! {

/// The swaps of the rest of a pass that has come to index `i`: each pair of
/// neighbours from there on is looked at once, in ascending order, and
/// exchanged if the left value is the larger.
pub open spec fn pass_swaps(s: Seq<usize>, i: int) -> Seq<Emission>
    decreases s.len() - i,
{
    if 0 <= i < s.len() - 1 {
        if s[i] > s[i + 1] {
            seq![swap_emission(i, i + 1)] + pass_swaps(exchanged(s, i, i + 1), i + 1)
        } else {
            pass_swaps(s, i + 1)
        }
    } else {
        Seq::empty()
    }
}

/// The swaps of at most `passes` full passes, which end with the first pass
/// that exchanges nothing.
pub open spec fn passes_log(s: Seq<usize>, passes: nat) -> Seq<Emission>
    decreases passes,
{
    let pass = pass_swaps(s, 0);
    if passes == 0 || pass.len() == 0 {
        Seq::empty()
    } else {
        pass + passes_log(replay(pass, s), (passes - 1) as nat)
    }
}

/// The swaps of a bubble sort of `s`. A pass without a swap comes after fewer
/// than `s.len()` passes with one.
pub open spec fn bubble_sort_log(s: Seq<usize>) -> Seq<Emission> {
    passes_log(s, s.len())
}

/// The last `count` values are in ascending order, and none of them is
/// smaller than a value before it.
pub open spec fn settled(s: Seq<usize>, count: int) -> bool {
    forall|a: int, b: int| 0 <= a < b < s.len() && b >= s.len() - count ==> s[a] <= s[b]
}

/// A pass queues nothing but swaps.
pub proof fn lemma_pass_only_moves(s: Seq<usize>, i: int)
    ensures
        only_moves(pass_swaps(s, i)),
    decreases s.len() - i,
{
    if 0 <= i < s.len() - 1 {
        if s[i] > s[i + 1] {
            lemma_pass_only_moves(exchanged(s, i, i + 1), i + 1);
        } else {
            lemma_pass_only_moves(s, i + 1);
        }
    }
}

/// A bubble sort queues nothing but swaps.
pub proof fn lemma_passes_only_move(s: Seq<usize>, passes: nat)
    ensures
        only_moves(passes_log(s, passes)),
    decreases passes,
{
    let pass = pass_swaps(s, 0);
    lemma_pass_only_moves(s, 0);
    if passes != 0 && pass.len() != 0 {
        lemma_passes_only_move(replay(pass, s), (passes - 1) as nat);
    }
}

/// What the rest of a pass from index `i` on achieves, where `count` values
/// are settled, the value at `i` is the largest so far, and the values from
/// the one before the settled ones up to `i` are in place: afterwards one
/// more value is settled. The pass exchanges something only while fewer than
/// `s.len() - 1` values are settled, and where it exchanges nothing although
/// the values up to `i` ascend, the whole sequence ascends.
proof fn lemma_pass_settles(s: Seq<usize>, i: int, count: int)
    requires
        s.len() <= MAX_SIZE,
        0 <= count,
        0 <= i,
        i <= s.len() - 1 || s.len() == 0,
        forall|a: int, b: int|
            0 <= a < b < s.len() && (b >= s.len() - count || b == i || s.len() - count - 1 <= b
                <= i) ==> s[a] <= s[b],
    ensures
        replay(pass_swaps(s, i), s).len() == s.len(),
        settled(replay(pass_swaps(s, i), s), count + 1),
        pass_swaps(s, i).len() > 0 ==> count < s.len() - 1,
        pass_swaps(s, i).len() == 0 && (forall|a: int, b: int| 0 <= a < b <= i ==> s[a] <= s[b])
            ==> ascending(s),
    decreases s.len() - i,
{
    if i < s.len() - 1 {
        if s[i] > s[i + 1] {
            let next = exchanged(s, i, i + 1);
            let step = seq![swap_emission(i, i + 1)];
            let rest = pass_swaps(next, i + 1);
            lemma_pass_settles(next, i + 1, count);
            lemma_replay_concat(step, rest, s);
            lemma_replay_push(Seq::empty(), swap_emission(i, i + 1), s);
            assert(Seq::<Emission>::empty().push(swap_emission(i, i + 1)) =~= step);
        } else {
            lemma_pass_settles(s, i + 1, count);
        }
    }
}

/// Once `count` values are settled, `s.len() - count` passes do what any
/// larger number of passes does, and what they do leaves the values in
/// ascending order.
proof fn lemma_passes_settle(s: Seq<usize>, count: int, passes: nat)
    requires
        s.len() <= MAX_SIZE,
        0 <= count <= s.len(),
        settled(s, count),
        passes >= s.len() - count,
    ensures
        passes_log(s, passes) == passes_log(s, (s.len() - count) as nat),
        ascending(replay(passes_log(s, passes), s)),
    decreases passes,
{
    let pass = pass_swaps(s, 0);
    lemma_pass_settles(s, 0, count);
    if passes != 0 && pass.len() != 0 {
        let next = replay(pass, s);
        let rest = passes_log(next, (passes - 1) as nat);
        lemma_passes_settle(next, count + 1, (passes - 1) as nat);
        lemma_replay_concat(pass, rest, s);
    }
}

/// The swaps of a bubble sort put the values in ascending order, and no
/// allowance of passes beyond `s.len()` would add a swap to them.
pub proof fn lemma_bubble_sort_log_sorts(s: Seq<usize>, passes: nat)
    requires
        s.len() <= MAX_SIZE,
        passes >= s.len(),
    ensures
        ascending(replay(bubble_sort_log(s), s)),
        passes_log(s, passes) == bubble_sort_log(s),
{
    lemma_passes_settle(s, 0, passes);
    lemma_passes_settle(s, 0, s.len());
}

/// Bubble sort over a sequence engine of its own.
pub struct BubbleSort {
    sorting: Sorting,
}

impl View for BubbleSort {
    type V = Sorting;

    /// The engine that the strategy drives.
    closed spec fn view(&self) -> Sorting {
        self.sorting
    }
}

impl BubbleSort {
    /// The engine that the strategy drives.
    pub fn engine(&self) -> (engine: &Sorting)
        ensures
            *engine == self@,
    {
        &self.sorting
    }

    /// A strategy over a random permutation of `0 .. size`, freshly placed.
    pub fn new(size: u16) -> (strategy: Self)
        ensures
            strategy@.wf(),
            strategy@.capacity() == size,
            strategy@.sequence().len() == size,
            is_permutation_of_range(strategy@.sequence()),
            strategy@.log() == placement_log(strategy@.sequence()),
    {
        let mut sorting = Sorting::new(size);
        sorting.randomize();
        Self { sorting }
    }

    /// A strategy over the given values, which are placed as they stand.
    pub fn from_sequence(values: Vec<usize>) -> (strategy: Self)
        requires
            fits_events(values@),
        ensures
            strategy@.wf(),
            strategy@.sequence() == values@,
            strategy@.log() == placement_log(values@),
            strategy@.capacity() == values@.len(),
    {
        let mut sorting = Sorting::new(values.len() as u16);
        sorting.replace(values);
        Self { sorting }
    }

    /// Sorts the whole sequence and then verifies it once. The values end in
    /// ascending order, which for values without duplicates is strictly
    /// ascending order and passes the verification. What is queued during the
    /// run is the log of the bubble sort followed by that of the verification,
    /// and replaying it against the sequence before the run gives the sequence
    /// after it.
    pub fn sort(&mut self)
        requires
            old(self)@.wf(),
            old(self)@.sequence().len() >= 1,
        ensures
            final(self)@.wf(),
            final(self)@.capacity() == old(self)@.capacity(),
            ascending(final(self)@.sequence()),
            final(self)@.sequence().to_multiset() == old(self)@.sequence().to_multiset(),
            final(self)@.sequence().len() == old(self)@.sequence().len(),
            old(self)@.sequence().no_duplicates() ==> strictly_ascending(final(self)@.sequence())
                && passes_verification(final(self)@.sequence()),
            is_permutation_of_range(old(self)@.sequence()) ==> is_permutation_of_range(
                final(self)@.sequence(),
            ) && strictly_ascending(final(self)@.sequence()) && final(self)@.sequence() == identity(
                old(self)@.sequence().len(),
            ),
            final(self)@.log() == old(self)@.log() + bubble_sort_log(old(self)@.sequence())
                + verify_log(final(self)@.sequence()),
            final(self)@.sequence() == replay(
                bubble_sort_log(old(self)@.sequence()),
                old(self)@.sequence(),
            ),
            final(self)@.sequence() == replay(
                final(self)@.log().skip(old(self)@.log().len() as int),
                old(self)@.sequence(),
            ),
    {
        let len = self.sorting.values().len();
        let mut swapped;
        let ghost s0 = self@.sequence();
        let ghost log0 = self@.log();
        let ghost done: Seq<Emission> = Seq::empty();

        loop
            invariant_except_break
                bubble_sort_log(s0) == done + bubble_sort_log(self@.sequence()),
                self@.log() == log0 + done,
            invariant
                self@.wf(),
                self@.capacity() == old(self)@.capacity(),
                s0 == old(self)@.sequence(),
                log0 == old(self)@.log(),
                len == s0.len(),
                len >= 1,
                self@.sequence().len() == len,
                self@.sequence() == replay(done, s0),
            ensures
                bubble_sort_log(s0) == done,
                self@.log() == log0 + done + verify_log(self@.sequence()),
            decreases bubble_sort_log(s0).len() - done.len(),
        {
            swapped = false;
            let ghost cur = self@.sequence();
            let ghost pass: Seq<Emission> = Seq::empty();

            for i in 0..len - 1
                invariant
                    self@.wf(),
                    self@.capacity() == old(self)@.capacity(),
                    len >= 1,
                    cur.len() == len,
                    self@.sequence().len() == len,
                    self@.log() == log0 + done + pass,
                    self@.sequence() == replay(pass, cur),
                    pass_swaps(cur, 0) == pass + pass_swaps(self@.sequence(), i as int),
                    swapped <==> pass.len() > 0,
            {
                if self.sorting.values()[i] > self.sorting.values()[i + 1] {
                    self.sorting.swap_items(i, i + 1);
                    swapped = true;
                    proof {
                        let step = swap_emission(i as int, i + 1);
                        lemma_replay_push(pass, step, cur);
                        assert(pass + (seq![step] + pass_swaps(self@.sequence(), i + 1)) =~= pass.push(
                            step,
                        ) + pass_swaps(self@.sequence(), i + 1));
                        assert((log0 + done + pass).push(step) =~= log0 + done + pass.push(step));
                        pass = pass.push(step);
                    }
                }
            }

            if !swapped {
                self.sorting.verify();
                proof {
                    assert(pass =~= Seq::<Emission>::empty());
                    assert(log0 + done + pass =~= log0 + done);
                    assert(done + bubble_sort_log(cur) =~= done);
                }
                break ;
            }
            proof {
                let rest = passes_log(self@.sequence(), len as nat);
                lemma_bubble_sort_log_sorts(cur, (len + 1) as nat);
                assert(log0 + done + pass =~= log0 + (done + pass));
                assert(done + (pass + rest) =~= (done + pass) + rest);
                lemma_replay_concat(done, pass, s0);
                done = done + pass;
            }
        }
        proof {
            let sorted = self@.sequence();
            let checks = verify_log(sorted);
            lemma_bubble_sort_log_sorts(s0, len as nat);
            lemma_replay_keeps_values(done, s0);
            if s0.no_duplicates() {
                lemma_same_values_no_duplicates(s0, sorted);
                lemma_ascending_distinct_is_strict(sorted);
                lemma_strict_passes(sorted);
            }
            if is_permutation_of_range(s0) {
                lemma_ascending_permutation(sorted);
            }
            assert(self@.log().skip(log0.len() as int) =~= done + checks);
            lemma_replay_concat(done, checks, s0);
            lemma_replay_verify_log(sorted, sorted);
        }
    }
}

} // verus!
