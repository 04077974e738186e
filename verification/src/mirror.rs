//! Why the renderer needs nothing but the events: the towers that it builds
//! from a log show the sequence that the engine holds.

use vstd::prelude::*;
use crate::algorithms::bubble::{
    bubble_sort_log, lemma_bubble_sort_log_sorts, lemma_passes_only_move,
};
use crate::algorithms::engine::{
    lemma_replay_verify_log, lemma_verify_log_only_moves, place_emission, placement_log,
    verify_log,
};
use crate::algorithms::quick::{
    lemma_quick_sort_log_sorts, lemma_quick_sort_only_moves, quick_sort_log,
};
use crate::event::{Emission, Event};
use crate::output::{step, Tower};
use crate::sequence::{
    ascending, fits_events, lemma_replay_concat, lemma_replay_keeps_values, only_moves, replay,
};

verus! {

/// The heights of the towers, by index.
pub open spec fn heights(towers: Seq<Tower>) -> Seq<usize> {
    towers.map_values(|tower: Tower| tower.heigth as usize)
}

/// The towers after a log of emissions, oldest first.
pub open spec fn render(towers: Seq<Tower>, log: Seq<Emission>) -> Seq<Tower>
    decreases log.len(),
{
    if log.len() == 0 {
        towers
    } else {
        step(render(towers, log.drop_last()), log.last().event)
    }
}

/// Rendering two logs one after the other is rendering their concatenation.
pub proof fn lemma_render_concat(towers: Seq<Tower>, first: Seq<Emission>, second: Seq<Emission>)
    ensures
        render(towers, first + second) == render(render(towers, first), second),
    decreases second.len(),
{
    if second.len() == 0 {
        assert(first + second =~= first);
    } else {
        lemma_render_concat(towers, first, second.drop_last());
        assert((first + second).drop_last() =~= first + second.drop_last());
    }
}

/// Whatever towers stood before, after the placement of a sequence the towers
/// stand at their columns and have the values of the sequence as heights.
pub proof fn lemma_render_placement(towers: Seq<Tower>, s: Seq<usize>)
    requires
        fits_events(s),
    ensures
        heights(render(towers, placement_log(s))) == s,
        forall|i: int|
            0 <= i < s.len() ==> (#[trigger] render(towers, placement_log(s))[i]).x == i,
{
    lemma_render_places(towers, s, s.len());
    assert(placement_log(s) =~= seq![Emission { event: Event::Clear, pause_ms: 0 }] + Seq::new(
        s.len(),
        |i: int| place_emission(i, s[i]),
    ));
    let after = render(towers, placement_log(s));
    assert(heights(after) =~= s);
}

/// The towers after a `Clear` and the first `n` placements of `s`.
proof fn lemma_render_places(towers: Seq<Tower>, s: Seq<usize>, n: nat)
    requires
        fits_events(s),
        n <= s.len(),
    ensures
        render(
            towers,
            seq![Emission { event: Event::Clear, pause_ms: 0 }] + Seq::new(
                n,
                |i: int| place_emission(i, s[i]),
            ),
        ) == Seq::new(n, |i: int| Tower { x: i as u16, heigth: s[i] as u16 }),
    decreases n,
{
    let clear = seq![Emission { event: Event::Clear, pause_ms: 0 }];
    let log = clear + Seq::new(n, |i: int| place_emission(i, s[i]));
    if n == 0 {
        assert(log =~= clear);
        assert(clear.drop_last() =~= Seq::<Emission>::empty());
        assert(render(towers, log) =~= Seq::<Tower>::empty());
    } else {
        let shorter = clear + Seq::new((n - 1) as nat, |i: int| place_emission(i, s[i]));
        lemma_render_places(towers, s, (n - 1) as nat);
        assert(log.drop_last() =~= shorter);
        assert(log.last() == place_emission(n - 1, s[n - 1]));
        assert(render(towers, log) =~= Seq::new(
            n,
            |i: int| Tower { x: i as u16, heigth: s[i] as u16 },
        ));
    }
}

/// Swaps and verification steps do to the heights of the towers what their
/// replay does to a sequence.
pub proof fn lemma_render_follows_replay(towers: Seq<Tower>, log: Seq<Emission>)
    requires
        only_moves(log),
    ensures
        heights(render(towers, log)) == replay(log, heights(towers)),
    decreases log.len(),
{
    if log.len() > 0 {
        lemma_render_follows_replay(towers, log.drop_last());
        let before = render(towers, log.drop_last());
        assert(log[log.len() - 1].event is Swap || log[log.len() - 1].event is VerifyStep);
        assert(heights(step(before, log.last().event)) =~= replay(log, heights(towers)));
    }
}

/// A renderer that starts from any towers and is fed the placement of a
/// sequence and then the moves of a run shows the sequence as the run left it.
pub proof fn lemma_renderer_mirrors_engine(
    towers: Seq<Tower>,
    start: Seq<usize>,
    moves: Seq<Emission>,
)
    requires
        fits_events(start),
        only_moves(moves),
    ensures
        heights(render(towers, placement_log(start) + moves)) == replay(moves, start),
{
    lemma_render_concat(towers, placement_log(start), moves);
    lemma_render_placement(towers, start);
    lemma_render_follows_replay(render(towers, placement_log(start)), moves);
}

/// Fed everything that a bubble sort run queues, from the placement to the
/// verification, the renderer ends with the values of the sequence as
/// heights, in ascending order.
pub proof fn lemma_bubble_run_mirrored(towers: Seq<Tower>, start: Seq<usize>)
    requires
        fits_events(start),
    ensures
        ({
            let swaps = bubble_sort_log(start);
            let sorted = replay(swaps, start);
            let shown = heights(render(towers, placement_log(start) + swaps + verify_log(sorted)));
            &&& shown == sorted
            &&& ascending(shown)
            &&& shown.to_multiset() == start.to_multiset()
        }),
{
    let swaps = bubble_sort_log(start);
    lemma_passes_only_move(start, start.len());
    lemma_bubble_sort_log_sorts(start, start.len());
    lemma_replay_keeps_values(swaps, start);
    lemma_run_mirrored(towers, start, swaps);
}

/// Fed everything that a quick sort run queues, from the placement to the
/// verification, the renderer ends with the values of the sequence as
/// heights, in ascending order.
pub proof fn lemma_quick_run_mirrored(towers: Seq<Tower>, start: Seq<usize>)
    requires
        fits_events(start),
    ensures
        ({
            let swaps = quick_sort_log(start, 0, start.len() - 1);
            let sorted = replay(swaps, start);
            let shown = heights(render(towers, placement_log(start) + swaps + verify_log(sorted)));
            &&& shown == sorted
            &&& ascending(shown)
            &&& shown.to_multiset() == start.to_multiset()
        }),
{
    let swaps = quick_sort_log(start, 0, start.len() - 1);
    lemma_quick_sort_only_moves(start, 0, start.len() - 1);
    lemma_quick_sort_log_sorts(start, 0, start.len() - 1);
    lemma_run_mirrored(towers, start, swaps);
}

/// The same for any swaps that are followed by the verification of what they
/// lead to.
proof fn lemma_run_mirrored(towers: Seq<Tower>, start: Seq<usize>, swaps: Seq<Emission>)
    requires
        fits_events(start),
        only_moves(swaps),
    ensures
        heights(
            render(towers, placement_log(start) + swaps + verify_log(replay(swaps, start))),
        ) == replay(swaps, start),
{
    let sorted = replay(swaps, start);
    let checks = verify_log(sorted);
    lemma_verify_log_only_moves(sorted);
    assert(only_moves(swaps + checks));
    assert(placement_log(start) + swaps + checks =~= placement_log(start) + (swaps + checks));
    lemma_renderer_mirrors_engine(towers, start, swaps + checks);
    lemma_replay_concat(swaps, checks, start);
    lemma_replay_verify_log(sorted, sorted);
}

} // verus!
