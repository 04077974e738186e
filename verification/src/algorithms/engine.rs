//! The sequence engine: it owns the values, and queues one emission for every
//! visible change.

use vstd::prelude::*;
use crate::event::{Emission, Event};
use crate::sequence::{
    exchanged, fits_events, identity, is_permutation_of_range, lemma_exchanged_multiset,
    lemma_permutation_elements, lemma_replay_without_swaps, only_moves, replay,
    strictly_ascending, swap_emission, MAX_SIZE, SWAP_TIME,
};
use crate::shuffle::shuffle;

verus! {

/// Pause after a visualized verification step, in milliseconds.
pub const VERIFY_TIME: u64 = 30;

/// The sequence at `i` is larger than its left neighbour and smaller than its
/// right one.
pub open spec fn locally_ascending(s: Seq<usize>, i: int) -> bool {
    s[i - 1] < s[i] && s[i] < s[i + 1]
}

/// Where a scan of the interior indices that starts at `from` stops: at the
/// first index that is not locally ascending, or behind the last interior
/// index.
pub open spec fn verified_until(s: Seq<usize>, from: int) -> int
    decreases s.len() - from,
{
    if 1 <= from < s.len() - 1 && locally_ascending(s, from) {
        verified_until(s, from + 1)
    } else {
        from
    }
}

/// The scan of the interior indices meets no violation. Sequences of one or
/// two values have no interior index that could fail.
pub open spec fn passes_verification(s: Seq<usize>) -> bool {
    verified_until(s, 1) >= s.len() - 1
}

/// The emission that confirms column `i`, followed by `pause_ms`.
pub open spec fn verify_emission(i: int, pause_ms: u64) -> Emission {
    Emission { event: Event::VerifyStep { index: i as u16 }, pause_ms }
}

/// What a verification of `s` queues: a sentinel for column 0, one paced step
/// for each interior index up to the first violation, and, if there was none,
/// a closing step for the last column.
pub open spec fn verify_log(s: Seq<usize>) -> Seq<Emission> {
    let stop = verified_until(s, 1);
    let scan = Seq::new(
        stop as nat,
        |i: int|
            if i == 0 {
                verify_emission(0, 0)
            } else {
                verify_emission(i, VERIFY_TIME)
            },
    );
    if passes_verification(s) {
        scan.push(verify_emission(s.len() - 1, 0))
    } else {
        scan
    }
}

/// The scan moves forward only, stops behind the last interior index at the
/// latest, passes nothing but locally ascending indices, and stops early only
/// at an index that is not locally ascending.
pub proof fn lemma_verified_until(s: Seq<usize>, from: int)
    requires
        1 <= from,
    ensures
        from <= verified_until(s, from),
        from <= s.len() - 1 ==> verified_until(s, from) <= s.len() - 1,
        forall|i: int| from <= i < verified_until(s, from) ==> locally_ascending(s, i),
        verified_until(s, from) < s.len() - 1 ==> !locally_ascending(s, verified_until(s, from)),
    decreases s.len() - from,
{
    if from < s.len() - 1 && locally_ascending(s, from) {
        lemma_verified_until(s, from + 1);
    }
}

/// A verification step is queued for an index only if the sequence is locally
/// ascending at every interior index before it; and a verification that meets
/// a violation queues exactly the steps before the first one, and nothing
/// after them.
pub proof fn lemma_verify_monotone(s: Seq<usize>)
    requires
        1 <= s.len() <= MAX_SIZE,
    ensures
        forall|n: int|
            #![trigger verify_log(s)[n]]
            0 <= n < verify_log(s).len() ==> verify_log(s)[n].event is VerifyStep && forall|j: int|
                1 <= j < verify_log(s)[n].event->VerifyStep_index && j < s.len() - 1
                    ==> locally_ascending(s, j),
        !passes_verification(s) ==> verify_log(s).len() == verified_until(s, 1)
            && !locally_ascending(s, verified_until(s, 1))
            && forall|n: int|
            0 <= n < verify_log(s).len() ==> (#[trigger] verify_log(s)[n]).event
                == (Event::VerifyStep { index: n as u16 }),
{
    lemma_verified_until(s, 1);
}

/// A strictly ascending sequence passes verification.
pub proof fn lemma_strict_passes(s: Seq<usize>)
    requires
        strictly_ascending(s),
    ensures
        passes_verification(s),
{
    lemma_verified_until(s, 1);
}

/// From three values on, only a strictly ascending sequence passes
/// verification.
pub proof fn lemma_passes_is_strict(s: Seq<usize>)
    requires
        s.len() >= 3,
        passes_verification(s),
    ensures
        strictly_ascending(s),
{
    lemma_verified_until(s, 1);
    assert forall|i: int, j: int| 0 <= i < j < s.len() implies s[i] < s[j] by {
        lemma_neighbours_ascend(s, i, j);
    }
}

/// Where each value is below its right neighbour, each is below every value to
/// its right.
proof fn lemma_neighbours_ascend(s: Seq<usize>, i: int, j: int)
    requires
        forall|k: int| 1 <= k < s.len() - 1 ==> locally_ascending(s, k),
        s.len() >= 3,
        0 <= i < j < s.len(),
    ensures
        s[i] < s[j],
    decreases j - i,
{
    if j - 1 > i {
        lemma_neighbours_ascend(s, i, j - 1);
    }
    if j == s.len() - 1 {
        assert(locally_ascending(s, j - 1));
    } else {
        assert(locally_ascending(s, j));
    }
}

/// A verification queues nothing but verification steps.
pub proof fn lemma_verify_log_only_moves(s: Seq<usize>)
    ensures
        only_moves(verify_log(s)),
{
}

/// Verification steps move no value.
pub proof fn lemma_replay_verify_log(s: Seq<usize>, onto: Seq<usize>)
    ensures
        replay(verify_log(s), onto) == onto,
{
    lemma_replay_without_swaps(verify_log(s), onto);
}

/// The emission that places `height` at column `i`.
pub open spec fn place_emission(i: int, height: usize) -> Emission {
    Emission { event: Event::Place { index: i as u16, height: height as u16 }, pause_ms: 0 }
}

/// What replacing the sequence by `s` queues: one `Clear`, then one `Place`
/// for each index in ascending order.
pub open spec fn placement_log(s: Seq<usize>) -> Seq<Emission> {
    seq![Emission { event: Event::Clear, pause_ms: 0 }] + Seq::new(
        s.len(),
        |i: int| place_emission(i, s[i]),
    )
}

/// The sequence engine.
pub struct Sorting {
    list: Vec<usize>,
    size: usize,
    emitted: Vec<Emission>,
}

impl Sorting {
    /// The values, by index.
    pub closed spec fn sequence(&self) -> Seq<usize> {
        self.list@
    }

    /// Everything queued so far, oldest first.
    pub closed spec fn log(&self) -> Seq<Emission> {
        self.emitted@
    }

    /// The number of values that `randomize` produces.
    pub closed spec fn capacity(&self) -> nat {
        self.size as nat
    }

    /// Lengths, indices and values all fit into events.
    pub open spec fn wf(&self) -> bool {
        &&& fits_events(self.sequence())
        &&& self.capacity() <= MAX_SIZE
    }

    /// An engine for `size` values, with no values yet and nothing queued.
    pub fn new(size: u16) -> (engine: Self)
        ensures
            engine.wf(),
            engine.sequence() == Seq::<usize>::empty(),
            engine.log() == Seq::<Emission>::empty(),
            engine.capacity() == size,
    {
        Self { list: Vec::new(), size: size as usize, emitted: Vec::new() }
    }

    /// The values, by index.
    pub fn values(&self) -> (values: &Vec<usize>)
        ensures
            values@ == self.sequence(),
    {
        &self.list
    }

    /// Everything queued so far, oldest first.
    pub fn emissions(&self) -> (emissions: &Vec<Emission>)
        ensures
            emissions@ == self.log(),
    {
        &self.emitted
    }

    /// Exchanges the values at `x_l` and `x_r` and queues the one `Swap` that
    /// shows it, followed by the swap pause.
    pub fn swap_items(&mut self, x_l: usize, x_r: usize)
        requires
            old(self).wf(),
            x_l < old(self).sequence().len(),
            x_r < old(self).sequence().len(),
        ensures
            final(self).wf(),
            final(self).sequence() == exchanged(old(self).sequence(), x_l as int, x_r as int),
            final(self).sequence().to_multiset() == old(self).sequence().to_multiset(),
            is_permutation_of_range(old(self).sequence()) ==> is_permutation_of_range(
                final(self).sequence(),
            ),
            final(self).log() == old(self).log().push(swap_emission(x_l as int, x_r as int)),
            final(self).capacity() == old(self).capacity(),
    {
        proof {
            lemma_exchanged_multiset(self.list@, x_l as int, x_r as int);
        }
        let number_l = self.list[x_l];
        let number_r = self.list[x_r];
        self.list.set(x_l, number_r);
        self.list.set(x_r, number_l);
        self.emitted.push(
            Emission { event: Event::Swap { left: x_l as u16, right: x_r as u16 }, pause_ms: SWAP_TIME },
        );
    }

    /// Replaces the values by `values` and queues what shows it: one `Clear`,
    /// then one `Place` for each index in ascending order.
    pub fn replace(&mut self, values: Vec<usize>)
        requires
            old(self).wf(),
            fits_events(values@),
        ensures
            final(self).wf(),
            final(self).sequence() == values@,
            final(self).log() == old(self).log() + placement_log(values@),
            final(self).capacity() == old(self).capacity(),
    {
        let ghost before = self.emitted@;
        self.list = values;
        self.emitted.push(Emission { event: Event::Clear, pause_ms: 0 });
        let len = self.list.len();
        let mut i: usize = 0;
        while i < len
            invariant
                i <= len,
                len == self.list.len(),
                self.list@ == values@,
                self.wf(),
                self.size == old(self).size,
                before == old(self).log(),
                self.emitted@ == before.push(Emission { event: Event::Clear, pause_ms: 0 })
                    + Seq::new(i as nat, |k: int| place_emission(k, values@[k])),
            decreases len - i,
        {
            self.emitted.push(
                Emission {
                    event: Event::Place { index: i as u16, height: self.list[i] as u16 },
                    pause_ms: 0,
                },
            );
            i += 1;
        }
    }

    /// Fills the sequence with a random permutation of `0 .. capacity` and
    /// queues what shows it: one `Clear`, then one `Place` for each index in
    /// ascending order.
    pub fn randomize(&mut self)
        requires
            old(self).wf(),
        ensures
            final(self).wf(),
            final(self).sequence().len() == old(self).capacity(),
            is_permutation_of_range(final(self).sequence()),
            final(self).log() == old(self).log() + placement_log(final(self).sequence()),
            final(self).capacity() == old(self).capacity(),
    {
        let mut values: Vec<usize> = Vec::new();
        let mut i: usize = 0;
        while i < self.size
            invariant
                i <= self.size,
                values@ == identity(i as nat),
            decreases self.size - i,
        {
            values.push(i);
            i += 1;
        }
        shuffle(&mut values);
        proof {
            lemma_permutation_elements(values@);
        }
        self.replace(values);
    }

    /// Scans the interior indices in ascending order and queues a step for
    /// each one at which the sequence is locally ascending. Stops without a
    /// further emission at the first index where it is not, and says whether
    /// the scan came through. The values are left alone.
    pub fn verify(&mut self) -> (ok: bool)
        requires
            old(self).wf(),
            old(self).sequence().len() >= 1,
        ensures
            final(self).wf(),
            final(self).sequence() == old(self).sequence(),
            final(self).capacity() == old(self).capacity(),
            ok == passes_verification(old(self).sequence()),
            old(self).sequence().len() >= 3 ==> ok == strictly_ascending(old(self).sequence()),
            old(self).sequence().len() <= 2 ==> ok,
            final(self).log() == old(self).log() + verify_log(old(self).sequence()),
    {
        proof {
            if self.list@.len() >= 3 {
                if passes_verification(self.list@) {
                    lemma_passes_is_strict(self.list@);
                }
                if strictly_ascending(self.list@) {
                    lemma_strict_passes(self.list@);
                }
            }
        }
        let len = self.list.len();
        let ghost before = self.emitted@;
        let ghost s = self.list@;
        self.emitted.push(Emission { event: Event::VerifyStep { index: 0 }, pause_ms: 0 });
        let mut i: usize = 1;
        while i < len - 1
            invariant
                1 <= i,
                len == self.list.len(),
                len >= 1,
                i <= len - 1 || len == 1,
                self.list@ == s,
                s == old(self).sequence(),
                before == old(self).log(),
                self.wf(),
                self.size == old(self).size,
                verified_until(s, 1) == verified_until(s, i as int),
                self.emitted@ == before + Seq::new(
                    i as nat,
                    |k: int|
                        if k == 0 {
                            verify_emission(0, 0)
                        } else {
                            verify_emission(k, VERIFY_TIME)
                        },
                ),
            decreases len - i,
        {
            if self.list[i - 1] < self.list[i] && self.list[i] < self.list[i + 1] {
                self.emitted.push(
                    Emission { event: Event::VerifyStep { index: i as u16 }, pause_ms: VERIFY_TIME },
                );
            } else {
                return false;
            }
            i += 1;
        }
        self.emitted.push(
            Emission { event: Event::VerifyStep { index: (len - 1) as u16 }, pause_ms: 0 },
        );
        true
    }
}

} // verus!
