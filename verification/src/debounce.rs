//! The timing model of trailing-edge debouncing.
//!
//! Raw file-system events are identified by their arrival times, in
//! milliseconds, in arrival order. Debouncing groups the events into
//! coalesced batches: a batch ends only once no event has arrived for a full
//! debounce window, so an event whose quiet gap to its predecessor exceeds
//! the window opens a new batch, and every other event joins the batch of
//! its predecessor.
//!
//! [`batch_count`] and [`opening_indices`] are the model; [`count_batches`]
//! and [`batch_boundaries`] compute them; the lemmas state the coalescing
//! laws: a burst inside one window forms exactly one batch, a quiet gap
//! always separates batches, and a non-empty stream is never delivered as
//! zero batches.

use vstd::prelude::*;

verus! {

/// The fixed debounce window of a watch session, in milliseconds.
pub const DEBOUNCE_WINDOW_MS: u64 = 1000;

/// Arrival times come in arrival order: nondecreasing.
pub open spec fn nondecreasing(times: Seq<u64>) -> bool {
    forall|i: int, j: int| 0 <= i <= j < times.len() ==> times[i] <= times[j]
}

/// Whether the event at `i` opens a new coalesced batch: it is the first
/// event, or the quiet gap separating it from its predecessor is longer
/// than the window.
pub open spec fn opens_batch(times: Seq<u64>, window: u64, i: int) -> bool {
    i == 0 || times[i] - times[i - 1] > window
}

/// How many coalesced batches debouncing with the given quiet window forms
/// out of the events arriving at `times`.
pub open spec fn batch_count(times: Seq<u64>, window: u64) -> nat
    decreases times.len(),
{
    if times.len() == 0 {
        0
    } else if times.len() == 1 {
        1
    } else if times[times.len() - 1] - times[times.len() - 2] > window {
        batch_count(times.drop_last(), window) + 1
    } else {
        batch_count(times.drop_last(), window)
    }
}

/// Counts the coalesced batches that the events arriving at `times` form
/// under a quiet window of `window` milliseconds.
pub fn count_batches(times: &Vec<u64>, window: u64) -> (n: usize)
    requires
        nondecreasing(times@),
    ensures
        n == batch_count(times@, window),
{
    if times.len() == 0 {
        return 0;
    }
    let ghost all = times@;
    let mut n: usize = 1;
    let mut i: usize = 1;
    while i < times.len()
        invariant
            1 <= i <= all.len(),
            all.len() == times@.len(),
            times@ == all,
            nondecreasing(all),
            n == batch_count(all.take(i as int), window),
            n <= i,
        decreases all.len() - i,
    {
        assert(all[i as int - 1] <= all[i as int]);
        proof {
            assert(all.take(i + 1).drop_last() =~= all.take(i as int));
            assert(all.take(i + 1)[i as int] == all[i as int]);
            assert(all.take(i + 1)[i as int - 1] == all[i as int - 1]);
        }
        if times[i] - times[i - 1] > window {
            n = n + 1;
        }
        i = i + 1;
    }
    proof {
        assert(all.take(all.len() as int) =~= all);
    }
    n
}

/// The indices at which the coalesced batches open, oldest first: batch `k`
/// is the run of events from `opening_indices(..)[k]` up to the next opening
/// index (or the end of the stream), so every batch is a non-empty run of
/// consecutive events in arrival order.
pub open spec fn opening_indices(times: Seq<u64>, window: u64) -> Seq<usize>
    decreases times.len(),
{
    if times.len() == 0 {
        Seq::empty()
    } else if times.len() == 1 {
        seq![0usize]
    } else if times[times.len() - 1] - times[times.len() - 2] > window {
        opening_indices(times.drop_last(), window).push((times.len() - 1) as usize)
    } else {
        opening_indices(times.drop_last(), window)
    }
}

/// Computes where each coalesced batch opens: batch `k` holds the events
/// from `boundaries[k]` up to `boundaries[k + 1]` (or the end), in arrival
/// order.
pub fn batch_boundaries(times: &Vec<u64>, window: u64) -> (boundaries: Vec<usize>)
    requires
        nondecreasing(times@),
    ensures
        boundaries@ == opening_indices(times@, window),
{
    let mut boundaries: Vec<usize> = Vec::new();
    if times.len() == 0 {
        return boundaries;
    }
    boundaries.push(0);
    proof {
        assert(times@.take(1).len() == 1);
        assert(boundaries@ =~= opening_indices(times@.take(1), window));
    }
    let ghost all = times@;
    let mut i: usize = 1;
    while i < times.len()
        invariant
            1 <= i <= all.len(),
            times@ == all,
            nondecreasing(all),
            boundaries@ == opening_indices(all.take(i as int), window),
        decreases all.len() - i,
    {
        assert(all[i as int - 1] <= all[i as int]);
        proof {
            assert(all.take(i + 1).drop_last() =~= all.take(i as int));
            assert(all.take(i + 1)[i as int] == all[i as int]);
            assert(all.take(i + 1)[i as int - 1] == all[i as int - 1]);
        }
        if times[i] - times[i - 1] > window {
            boundaries.push(i);
        }
        i = i + 1;
    }
    proof {
        assert(all.take(all.len() as int) =~= all);
    }
    boundaries
}

/// There is one opening index per batch; the first batch opens at the first
/// event; the indices point into the stream, come strictly ascending, and
/// each one opens a batch.
pub proof fn lemma_opening_indices_open(times: Seq<u64>, window: u64)
    requires
        times.len() <= usize::MAX,
    ensures
        opening_indices(times, window).len() == batch_count(times, window),
        times.len() > 0 ==> opening_indices(times, window)[0] == 0,
        forall|k: int|
            0 <= k < opening_indices(times, window).len() ==> #[trigger] opening_indices(
                times,
                window,
            )[k] < times.len(),
        forall|k: int|
            0 < k < opening_indices(times, window).len() ==> opening_indices(times, window)[k - 1]
                < #[trigger] opening_indices(times, window)[k],
        forall|k: int|
            0 <= k < opening_indices(times, window).len() ==> opens_batch(
                times,
                window,
                #[trigger] opening_indices(times, window)[k] as int,
            ),
    decreases times.len(),
{
    if times.len() > 1 {
        let dropped = times.drop_last();
        let prefix = opening_indices(dropped, window);
        lemma_opening_indices_open(dropped, window);
        lemma_nonempty_stream_delivers(dropped, window);
        assert forall|k: int|
            0 <= k < prefix.len() implies opens_batch(
            times,
            window,
            #[trigger] prefix[k] as int,
        ) by {
            assert(opens_batch(dropped, window, prefix[k] as int));
            if prefix[k] != 0 {
                assert(dropped[prefix[k] as int] == times[prefix[k] as int]);
                assert(dropped[prefix[k] as int - 1] == times[prefix[k] as int - 1]);
            }
        }
        let whole = opening_indices(times, window);
        if times[times.len() - 1] - times[times.len() - 2] > window {
            assert(times.len() - 1 <= usize::MAX);
            assert(whole == prefix.push((times.len() - 1) as usize));
            assert(whole[0] == prefix[0]);
            assert forall|k: int| 0 < k < whole.len() implies whole[k - 1]
                < #[trigger] whole[k] by {
                if k < whole.len() - 1 {
                    assert(whole[k] == prefix[k]);
                    assert(whole[k - 1] == prefix[k - 1]);
                } else {
                    assert(whole[k] == (times.len() - 1) as usize);
                    assert(whole[k - 1] == prefix[k - 1]);
                    assert(prefix[k - 1] < dropped.len());
                }
            }
            assert(opens_batch(times, window, times.len() - 1));
        } else {
            assert(whole == prefix);
        }
    }
}

/// Completeness: every event that opens a batch stands among the opening
/// indices — no batch is lost.
pub proof fn lemma_opening_indices_complete(times: Seq<u64>, window: u64)
    requires
        times.len() <= usize::MAX,
    ensures
        forall|i: int|
            0 <= i < times.len() && opens_batch(times, window, i) ==> opening_indices(
                times,
                window,
            ).contains(i as usize),
    decreases times.len(),
{
    if times.len() == 1 {
        assert(opening_indices(times, window)[0] == 0);
    } else if times.len() > 1 {
        let dropped = times.drop_last();
        let prefix = opening_indices(dropped, window);
        lemma_opening_indices_complete(dropped, window);
        assert forall|i: int|
            0 <= i < times.len() && opens_batch(times, window, i) implies opening_indices(
            times,
            window,
        ).contains(i as usize) by {
            if i < times.len() - 1 {
                if i != 0 {
                    assert(dropped[i] == times[i]);
                    assert(dropped[i - 1] == times[i - 1]);
                }
                assert(opens_batch(dropped, window, i));
                assert(prefix.contains(i as usize));
                let k = choose|k: int| 0 <= k < prefix.len() && prefix[k] == i as usize;
                assert(opening_indices(times, window)[k] == i as usize);
            } else {
                if times[times.len() - 1] - times[times.len() - 2] > window {
                    let whole = opening_indices(times, window);
                    assert(whole[whole.len() - 1] == i as usize);
                }
            }
        }
    }
}

/// A non-empty stream of events is never delivered as zero batches.
pub proof fn lemma_nonempty_stream_delivers(times: Seq<u64>, window: u64)
    requires
        times.len() >= 1,
    ensures
        batch_count(times, window) >= 1,
    decreases times.len(),
{
    if times.len() > 1 {
        lemma_nonempty_stream_delivers(times.drop_last(), window);
    }
}

/// Coalescing law: events that all arrive within one debounce window are
/// merged into exactly one batch.
pub proof fn lemma_single_window_one_batch(times: Seq<u64>, window: u64)
    requires
        times.len() >= 1,
        nondecreasing(times),
        times[times.len() - 1] - times[0] <= window,
    ensures
        batch_count(times, window) == 1,
    decreases times.len(),
{
    if times.len() > 1 {
        let dropped = times.drop_last();
        assert(times[0] <= times[times.len() - 2]);
        assert forall|i: int, j: int| 0 <= i <= j < dropped.len() implies dropped[i]
            <= dropped[j] by {
            assert(dropped[i] == times[i]);
            assert(dropped[j] == times[j]);
        }
        assert(dropped[dropped.len() - 1] == times[times.len() - 2]);
        assert(dropped[0] == times[0]);
        lemma_single_window_one_batch(dropped, window);
    }
}

/// No over-coalescing across quiet periods: a quiet gap longer than the
/// window always separates batches, so a stream that pauses for more than
/// the window on either side of the gap yields the batches of each side,
/// independently.
pub proof fn lemma_quiet_gap_separates(before: Seq<u64>, after: Seq<u64>, window: u64)
    requires
        before.len() >= 1,
        after.len() >= 1,
        after[0] - before[before.len() - 1] > window,
    ensures
        batch_count(before + after, window) == batch_count(before, window) + batch_count(
            after,
            window,
        ),
    decreases after.len(),
{
    let joined = before + after;
    assert(joined.len() == before.len() + after.len());
    if after.len() == 1 {
        assert(joined.drop_last() =~= before);
        assert(joined[joined.len() - 1] == after[0]);
        assert(joined[joined.len() - 2] == before[before.len() - 1]);
        lemma_nonempty_stream_delivers(before, window);
    } else {
        lemma_quiet_gap_separates(before, after.drop_last(), window);
        assert(joined.drop_last() =~= before + after.drop_last());
        assert(joined[joined.len() - 1] == after[after.len() - 1]);
        assert(joined[joined.len() - 2] == after[after.len() - 2]);
        assert(after.drop_last()[0] == after[0]);
    }
}

/// Isolated events: when every consecutive gap is longer than the window,
/// nothing is coalesced and every event is its own batch.
pub proof fn lemma_isolated_events_separate(times: Seq<u64>, window: u64)
    requires
        forall|i: int| 0 < i < times.len() ==> #[trigger] times[i] - times[i - 1] > window,
    ensures
        batch_count(times, window) == times.len(),
    decreases times.len(),
{
    if times.len() > 1 {
        let dropped = times.drop_last();
        assert forall|i: int| 0 < i < dropped.len() implies #[trigger] dropped[i] - dropped[i - 1]
            > window by {
            assert(dropped[i] == times[i]);
            assert(dropped[i - 1] == times[i - 1]);
        }
        lemma_isolated_events_separate(dropped, window);
    }
}

} // verus!
