//! Which long messages leave a port when it is polled.
//!
//! A long message stays with the driver after the call that submitted it has
//! returned. The driver marks the message's header done when it is finished with
//! it; even then the call that unprepares the header may answer that the buffer
//! is still playing. Only a message that is done and no longer playing has been
//! released, and only a released message may leave the in-flight list.

use vstd::prelude::*;
use crate::driver::{MHDR_DONE, MIDIERR_STILLPLAYING};

verus! {

/// What the driver shows of one request in flight when the port is polled.
#[derive(Clone, Copy, Debug, PartialEq, Eq, Structural)]
pub struct Completion {
    /// The flags of the request's header, as the driver last wrote them.
    pub flags: u32,
    /// The status of the driver's unprepare call for the header. The caller makes
    /// that call only when [`Completion::is_done`] holds of `flags`; otherwise the
    /// field is not read.
    pub status: u32,
}

/// Whether header flags carry the done mark.
pub open spec fn marked_done(flags: u32) -> bool {
    flags & MHDR_DONE == MHDR_DONE
}

impl Completion {
    /// The driver has let go of the buffer: its header is marked done, and the
    /// unprepare call did not answer that it is still playing.
    pub open spec fn released(self) -> bool {
        marked_done(self.flags) && self.status != MIDIERR_STILLPLAYING
    }

    /// Whether header flags carry the done mark, so that unprepare is to be called.
    pub fn is_done(flags: u32) -> (done: bool)
        ensures
            done == marked_done(flags),
    {
        flags & MHDR_DONE == MHDR_DONE
    }

    /// Whether this observation releases its request.
    pub fn is_released(&self) -> (released: bool)
        ensures
            released == self.released(),
    {
        self.flags & MHDR_DONE == MHDR_DONE && self.status != MIDIERR_STILLPLAYING
    }
}

/// Whether the request at `index` is released by the observation at the same index.
/// A request without an observation is not released.
pub open spec fn released_at(completions: Seq<Completion>, index: int) -> bool {
    0 <= index < completions.len() && completions[index].released()
}

/// The entries from `from` on that are not released, in their order.
pub open spec fn retained_from<T>(entries: Seq<T>, completions: Seq<Completion>, from: int) -> Seq<T>
    decreases entries.len() - from,
{
    if from < 0 || from >= entries.len() {
        Seq::empty()
    } else if released_at(completions, from) {
        retained_from(entries, completions, from + 1)
    } else {
        seq![entries[from]] + retained_from(entries, completions, from + 1)
    }
}

/// The entries that stay in flight after a poll: those not released, in their order.
pub open spec fn retained<T>(entries: Seq<T>, completions: Seq<Completion>) -> Seq<T> {
    retained_from(entries, completions, 0)
}

/// The positions below `count` whose requests are released, ascending.
pub open spec fn released_positions(completions: Seq<Completion>, count: int) -> Seq<usize>
    decreases count,
{
    if count <= 0 {
        Seq::empty()
    } else if released_at(completions, count - 1) {
        released_positions(completions, count - 1).push((count - 1) as usize)
    } else {
        released_positions(completions, count - 1)
    }
}

/// The released positions are in range, ascending, released, and none is missing.
pub proof fn lemma_released_positions(completions: Seq<Completion>, count: int)
    requires
        0 <= count <= usize::MAX,
    ensures
        released_positions(completions, count).len() <= count,
        forall|k: int|
            0 <= k < released_positions(completions, count).len() ==> {
                &&& 0 <= #[trigger] released_positions(completions, count)[k] < count
                &&& released_at(completions, released_positions(completions, count)[k] as int)
            },
        forall|j: int, k: int|
            0 <= j < k < released_positions(completions, count).len() ==> #[trigger] released_positions(
                completions,
                count,
            )[j] < #[trigger] released_positions(completions, count)[k],
        forall|i: int|
            0 <= i < count && #[trigger] released_at(completions, i) ==> released_positions(
                completions,
                count,
            ).contains(i as usize),
    decreases count,
{
    if count > 0 {
        lemma_released_positions(completions, count - 1);
        let before = released_positions(completions, count - 1);
        let all = released_positions(completions, count);
        assert forall|i: int| 0 <= i < count && #[trigger] released_at(completions, i) implies all.contains(
            i as usize,
        ) by {
            if i < count - 1 {
                let k = choose|k: int| 0 <= k < before.len() && before[k] == i as usize;
                assert(all[k] == i as usize);
            } else {
                assert(all[all.len() - 1] == i as usize);
            }
        }
    }
}

/// Where no entry from `from` up to `to` is released, those entries all stay.
pub proof fn lemma_retained_gap<T>(entries: Seq<T>, completions: Seq<Completion>, from: int, to: int)
    requires
        0 <= from <= to <= entries.len(),
        forall|i: int| from <= i < to ==> !released_at(completions, i),
    ensures
        retained_from(entries, completions, from) == entries.subrange(from, to) + retained_from(
            entries,
            completions,
            to,
        ),
    decreases to - from,
{
    if from < to {
        lemma_retained_gap(entries, completions, from + 1, to);
        assert(!released_at(completions, from));
        assert(seq![entries[from]] + entries.subrange(from + 1, to) =~= entries.subrange(from, to));
        assert(retained_from(entries, completions, from) =~= entries.subrange(from, to)
            + retained_from(entries, completions, to));
    } else {
        assert(entries.subrange(from, to) + retained_from(entries, completions, to)
            =~= retained_from(entries, completions, to));
    }
}

/// The entries that stay from `from` on are those that stay below `to`, then those
/// that stay from `to` on.
pub proof fn lemma_retained_split<T>(entries: Seq<T>, completions: Seq<Completion>, from: int, to: int)
    requires
        0 <= from <= to <= entries.len(),
    ensures
        retained_from(entries, completions, from) == retained_from(entries.take(to), completions, from)
            + retained_from(entries, completions, to),
    decreases to - from,
{
    let head = entries.take(to);
    if from < to {
        lemma_retained_split(entries, completions, from + 1, to);
        assert(head[from] == entries[from]);
        assert(retained_from(entries, completions, from) =~= retained_from(head, completions, from)
            + retained_from(entries, completions, to));
    } else {
        assert(retained_from(head, completions, from) + retained_from(entries, completions, to)
            =~= retained_from(entries, completions, to));
    }
}

/// Of the first `count` entries, as many stay as are not released.
pub proof fn lemma_retained_count<T>(entries: Seq<T>, completions: Seq<Completion>, count: int)
    requires
        0 <= count <= entries.len(),
    ensures
        retained(entries.take(count), completions).len() == count - released_positions(
            completions,
            count,
        ).len(),
    decreases count,
{
    if count > 0 {
        let head = entries.take(count);
        lemma_retained_count(entries, completions, count - 1);
        lemma_retained_split(head, completions, 0, count - 1);
        assert(head.take(count - 1) =~= entries.take(count - 1));
        assert(retained_from(head, completions, count) =~= Seq::<T>::empty());
    }
}

/// A poll takes a request only when the driver has released it.
///
/// A request whose observation is not marked done, or whose unprepare call answered
/// "still playing", or that has no observation, is in the list after the poll,
/// unchanged, behind the same requests as before less those released.
pub proof fn lemma_unreleased_survives<T>(entries: Seq<T>, completions: Seq<Completion>, index: int)
    requires
        0 <= index < entries.len(),
        !released_at(completions, index),
    ensures
        ({
            let slot = index - released_positions(completions, index).len();
            &&& 0 <= slot < retained(entries, completions).len()
            &&& retained(entries, completions)[slot] == entries[index]
        }),
{
    lemma_retained_split(entries, completions, 0, index);
    lemma_retained_count(entries, completions, index);
}

/// A poll in which the driver releases nothing leaves the in-flight list as it was,
/// however often it is repeated.
pub proof fn lemma_poll_without_release<T>(entries: Seq<T>, completions: Seq<Completion>)
    requires
        forall|i: int| 0 <= i < entries.len() ==> !released_at(completions, i),
    ensures
        retained(entries, completions) == entries,
{
    lemma_retained_gap(entries, completions, 0, entries.len() as int);
    assert(entries.subrange(0, entries.len() as int) + retained_from(
        entries,
        completions,
        entries.len() as int,
    ) =~= entries);
}

/// After a poll the list is shorter by the number of released requests.
pub proof fn lemma_poll_length<T>(entries: Seq<T>, completions: Seq<Completion>)
    ensures
        retained(entries, completions).len() == entries.len() - released_positions(
            completions,
            entries.len() as int,
        ).len(),
{
    lemma_retained_count(entries, completions, entries.len() as int);
    assert(entries.take(entries.len() as int) =~= entries);
}

} // verus!
