//! What a merge keeps: every event of both tracks, at the tick it had in its own
//! track, in the order of the ticks, the first track ahead on a tie.

use vstd::prelude::*;
use crate::midi_file::{lemma_merged_len, merged, merged_all, rebased, TrackEvent};

verus! {

/// The tick at which event `index` of `track` falls: the sum of the deltas of the
/// events up to it, its own included.
pub open spec fn tick_at(track: Seq<TrackEvent>, index: int) -> int
    decreases index,
{
    if index < 0 || index >= track.len() {
        0
    } else if index == 0 {
        track[0].vtime as int
    } else {
        tick_at(track, index - 1) + track[index].vtime
    }
}

/// How many events of `track` fall before tick `tick`.
pub open spec fn count_before(track: Seq<TrackEvent>, tick: int) -> nat
    decreases track.len(),
{
    if track.len() == 0 {
        0
    } else if tick_at(track, track.len() - 1) < tick {
        count_before(track.drop_last(), tick) + 1
    } else {
        count_before(track.drop_last(), tick)
    }
}

/// The place in the merge of event `index` of the first track: behind the events
/// of its own track before it, and behind the events of the second track that
/// fall on an earlier tick.
pub open spec fn slot_of_first(first: Seq<TrackEvent>, second: Seq<TrackEvent>, index: int) -> int {
    index + count_before(second, tick_at(first, index))
}

/// The place in the merge of event `index` of the second track: behind the events
/// of its own track before it, and behind the events of the first track that fall
/// on an earlier tick or on the same.
pub open spec fn slot_of_second(first: Seq<TrackEvent>, second: Seq<TrackEvent>, index: int) -> int {
    index + count_before(first, tick_at(second, index) + 1)
}

/// The tick of an event depends on the events up to it alone.
proof fn lemma_tick_prefix(track: Seq<TrackEvent>, len: int, index: int)
    requires
        0 <= index < len <= track.len(),
    ensures
        tick_at(track.take(len), index) == tick_at(track, index),
    decreases index,
{
    if index > 0 {
        lemma_tick_prefix(track, len, index - 1);
    }
}

/// Ticks never run backwards, and none is negative.
pub proof fn lemma_ticks_ascend(track: Seq<TrackEvent>, earlier: int, later: int)
    requires
        0 <= earlier <= later < track.len(),
    ensures
        0 <= tick_at(track, earlier) <= tick_at(track, later),
    decreases later,
{
    if later > 0 {
        if earlier < later {
            lemma_ticks_ascend(track, earlier, later - 1);
        } else {
            lemma_ticks_ascend(track, earlier - 1, later - 1);
        }
    }
}

/// The tick of an event counted from the head of its track.
proof fn lemma_tick_front(track: Seq<TrackEvent>, index: int)
    requires
        1 <= index < track.len(),
    ensures
        tick_at(track, index) == track[0].vtime + tick_at(track.drop_first(), index - 1),
    decreases index,
{
    let tail = track.drop_first();
    assert(tail[index - 1] == track[index]);
    if index > 1 {
        lemma_tick_front(track, index - 1);
    } else {
        assert(tick_at(track, 0) == track[0].vtime);
        assert(tick_at(tail, 0) == tail[0].vtime);
    }
}

/// Moving the head of a track `by` ticks earlier moves every event as much.
proof fn lemma_tick_rebased(track: Seq<TrackEvent>, by: u64, index: int)
    requires
        0 <= index < track.len(),
        by <= track[0].vtime,
    ensures
        tick_at(track.update(0, rebased(track[0], by)), index) == tick_at(track, index) - by,
    decreases index,
{
    if index > 0 {
        lemma_tick_rebased(track, by, index - 1);
    }
}

/// The count of a track from the count of its tail.
proof fn lemma_count_front(track: Seq<TrackEvent>, tick: int)
    requires
        track.len() > 0,
    ensures
        count_before(track, tick) == count_before(track.drop_first(), tick - track[0].vtime) + (
        if track[0].vtime < tick {
            1int
        } else {
            0int
        }),
    decreases track.len(),
{
    let len = track.len() as int;
    let tail = track.drop_first();
    if len > 1 {
        lemma_count_front(track.drop_last(), tick);
        lemma_tick_front(track, len - 1);
        assert(track.drop_last().drop_first() =~= tail.drop_last());
        assert(track.drop_last()[0] == track[0]);
        assert(tail.len() == len - 1);
        assert(count_before(tail, tick - track[0].vtime) == count_before(
            tail.drop_last(),
            tick - track[0].vtime,
        ) + (if tick_at(tail, len - 2) < tick - track[0].vtime {
            1int
        } else {
            0int
        }));
    } else {
        assert(tail.len() == 0);
        assert(track.drop_last().len() == 0);
        assert(tick_at(track, 0) == track[0].vtime);
        assert(count_before(track.drop_last(), tick) == 0);
        assert(count_before(tail, tick - track[0].vtime) == 0);
    }
}

/// Moving the head of a track and the tick by as much leaves the count.
proof fn lemma_count_rebased(track: Seq<TrackEvent>, by: u64, tick: int)
    requires
        track.len() > 0,
        by <= track[0].vtime,
    ensures
        count_before(track.update(0, rebased(track[0], by)), tick - by) == count_before(track, tick),
{
    let moved = track.update(0, rebased(track[0], by));
    lemma_count_front(track, tick);
    lemma_count_front(moved, tick - by);
    assert(moved.drop_first() =~= track.drop_first());
}

/// The count up to a tick is the place of the first event at or after it.
pub proof fn lemma_count_is_boundary(track: Seq<TrackEvent>, tick: int, boundary: int)
    requires
        0 <= boundary <= track.len(),
        boundary > 0 ==> tick_at(track, boundary - 1) < tick,
        boundary < track.len() ==> tick <= tick_at(track, boundary),
    ensures
        count_before(track, tick) == boundary,
    decreases track.len(),
{
    let len = track.len() as int;
    if len > 0 {
        let head = track.drop_last();
        assert(head =~= track.take(len - 1));
        if boundary == len {
            if len > 1 {
                lemma_ticks_ascend(track, len - 2, len - 1);
                lemma_tick_prefix(track, len - 1, len - 2);
            }
            lemma_count_is_boundary(head, tick, len - 1);
        } else {
            lemma_ticks_ascend(track, boundary, len - 1);
            if boundary > 0 {
                lemma_tick_prefix(track, len - 1, boundary - 1);
            }
            if boundary < len - 1 {
                lemma_tick_prefix(track, len - 1, boundary);
            }
            lemma_count_is_boundary(head, tick, boundary);
        }
    }
}

/// No more events fall before a tick than the track holds, and as many as are known
/// to fall before it.
pub proof fn lemma_count_bounds(track: Seq<TrackEvent>, tick: int)
    ensures
        count_before(track, tick) <= track.len(),
        forall|i: int|
            0 <= i < track.len() && #[trigger] tick_at(track, i) < tick ==> i < count_before(
                track,
                tick,
            ),
        forall|i: int|
            0 <= i < track.len() && tick <= #[trigger] tick_at(track, i) ==> count_before(track, tick)
                <= i,
    decreases track.len(),
{
    let len = track.len() as int;
    if len > 0 {
        let head = track.drop_last();
        assert(head =~= track.take(len - 1));
        lemma_count_bounds(head, tick);
        assert forall|i: int| 0 <= i < len && #[trigger] tick_at(track, i) < tick implies i
            < count_before(track, tick) by {
            if i < len - 1 {
                lemma_tick_prefix(track, len - 1, i);
                assert(tick_at(head, i) < tick);
            } else if len > 1 {
                lemma_tick_prefix(track, len - 1, len - 2);
                lemma_ticks_ascend(track, len - 2, len - 1);
                assert(tick_at(head, len - 2) < tick);
            }
        }
        assert forall|i: int| 0 <= i < len && tick <= #[trigger] tick_at(track, i) implies count_before(
            track,
            tick,
        ) <= i by {
            lemma_ticks_ascend(track, i, len - 1);
            if i < len - 1 {
                lemma_tick_prefix(track, len - 1, i);
                assert(tick <= tick_at(head, i));
            }
        }
    }
}

/// Where the second track's head is emitted first: the place of an event of the
/// first track, from its place in the merge that is left.
proof fn lemma_first_behind_second(first: Seq<TrackEvent>, second: Seq<TrackEvent>, i: int)
    requires
        second.len() > 0,
        0 <= i < first.len(),
        second[0].vtime < first[0].vtime,
    ensures
        slot_of_first(first, second, i) == slot_of_first(
            first.update(0, rebased(first[0], second[0].vtime)),
            second.drop_first(),
            i,
        ) + 1,
        tick_at(first.update(0, rebased(first[0], second[0].vtime)), i) == tick_at(first, i)
            - second[0].vtime,
{
    lemma_ticks_ascend(first, 0, i);
    lemma_tick_rebased(first, second[0].vtime, i);
    lemma_count_front(second, tick_at(first, i));
}

/// Where the second track's head is emitted first: the place of a later event of
/// the second track, from its place in the merge that is left.
proof fn lemma_second_behind_second(first: Seq<TrackEvent>, second: Seq<TrackEvent>, j: int)
    requires
        first.len() > 0,
        1 <= j < second.len(),
        second[0].vtime < first[0].vtime,
    ensures
        slot_of_second(first, second, j) == slot_of_second(
            first.update(0, rebased(first[0], second[0].vtime)),
            second.drop_first(),
            j - 1,
        ) + 1,
        tick_at(second.drop_first(), j - 1) == tick_at(second, j) - second[0].vtime,
{
    lemma_count_rebased(first, second[0].vtime, tick_at(second, j) + 1);
    lemma_tick_front(second, j);
}

/// Where the first track's head is emitted first: the place of a later event of
/// the first track, from its place in the merge that is left.
proof fn lemma_first_behind_first(first: Seq<TrackEvent>, second: Seq<TrackEvent>, i: int)
    requires
        second.len() > 0,
        1 <= i < first.len(),
        second[0].vtime >= first[0].vtime,
    ensures
        slot_of_first(first, second, i) == slot_of_first(
            first.drop_first(),
            second.update(0, rebased(second[0], first[0].vtime)),
            i - 1,
        ) + 1,
        tick_at(first.drop_first(), i - 1) == tick_at(first, i) - first[0].vtime,
{
    lemma_count_rebased(second, first[0].vtime, tick_at(first, i));
    lemma_tick_front(first, i);
}

/// Where the first track's head is emitted first: the place of an event of the
/// second track, from its place in the merge that is left.
proof fn lemma_second_behind_first(first: Seq<TrackEvent>, second: Seq<TrackEvent>, j: int)
    requires
        first.len() > 0,
        0 <= j < second.len(),
        second[0].vtime >= first[0].vtime,
    ensures
        slot_of_second(first, second, j) == slot_of_second(
            first.drop_first(),
            second.update(0, rebased(second[0], first[0].vtime)),
            j,
        ) + 1,
        tick_at(second.update(0, rebased(second[0], first[0].vtime)), j) == tick_at(second, j)
            - first[0].vtime,
{
    lemma_ticks_ascend(second, 0, j);
    lemma_tick_rebased(second, first[0].vtime, j);
    lemma_count_front(first, tick_at(second, j) + 1);
}

/// The head that is emitted first has the first place.
proof fn lemma_head_leads(first: Seq<TrackEvent>, second: Seq<TrackEvent>)
    requires
        first.len() > 0,
        second.len() > 0,
    ensures
        second[0].vtime < first[0].vtime ==> slot_of_second(first, second, 0) == 0,
        second[0].vtime >= first[0].vtime ==> slot_of_first(first, second, 0) == 0,
{
    if second[0].vtime < first[0].vtime {
        lemma_count_is_boundary(first, second[0].vtime + 1, 0);
    } else {
        lemma_count_is_boundary(second, first[0].vtime as int, 0);
    }
}

/// Merging keeps every event of the first track at its tick.
proof fn lemma_merge_keeps_first(first: Seq<TrackEvent>, second: Seq<TrackEvent>, i: int)
    requires
        0 <= i < first.len(),
    ensures
        0 <= slot_of_first(first, second, i) < merged(first, second).len(),
        merged(first, second)[slot_of_first(first, second, i)].event == first[i].event,
        tick_at(merged(first, second), slot_of_first(first, second, i)) == tick_at(first, i),
    decreases first.len() + second.len(),
{
    let all = merged(first, second);
    let slot = slot_of_first(first, second, i);
    if second.len() == 0 {
        assert(count_before(second, tick_at(first, i)) == 0);
    } else if second[0].vtime < first[0].vtime {
        let left = first.update(0, rebased(first[0], second[0].vtime));
        let right = second.drop_first();
        lemma_first_behind_second(first, second, i);
        lemma_merge_keeps_first(left, right, i);
        assert(all.drop_first() =~= merged(left, right));
        assert(all[slot] == merged(left, right)[slot - 1]);
        lemma_tick_front(all, slot);
    } else {
        let left = first.drop_first();
        let right = second.update(0, rebased(second[0], first[0].vtime));
        lemma_head_leads(first, second);
        if i > 0 {
            lemma_first_behind_first(first, second, i);
            lemma_merge_keeps_first(left, right, i - 1);
            assert(all.drop_first() =~= merged(left, right));
            assert(all[slot] == merged(left, right)[slot - 1]);
            lemma_tick_front(all, slot);
        }
    }
}

/// Merging keeps every event of the second track at its tick.
proof fn lemma_merge_keeps_second(first: Seq<TrackEvent>, second: Seq<TrackEvent>, j: int)
    requires
        0 <= j < second.len(),
    ensures
        0 <= slot_of_second(first, second, j) < merged(first, second).len(),
        merged(first, second)[slot_of_second(first, second, j)].event == second[j].event,
        tick_at(merged(first, second), slot_of_second(first, second, j)) == tick_at(second, j),
    decreases first.len() + second.len(),
{
    let all = merged(first, second);
    let slot = slot_of_second(first, second, j);
    if first.len() == 0 {
        assert(count_before(first, tick_at(second, j) + 1) == 0);
    } else if second[0].vtime < first[0].vtime {
        let left = first.update(0, rebased(first[0], second[0].vtime));
        let right = second.drop_first();
        lemma_head_leads(first, second);
        if j > 0 {
            lemma_second_behind_second(first, second, j);
            lemma_merge_keeps_second(left, right, j - 1);
            assert(all.drop_first() =~= merged(left, right));
            assert(all[slot] == merged(left, right)[slot - 1]);
            lemma_tick_front(all, slot);
        }
    } else {
        let left = first.drop_first();
        let right = second.update(0, rebased(second[0], first[0].vtime));
        lemma_second_behind_first(first, second, j);
        lemma_merge_keeps_second(left, right, j);
        assert(all.drop_first() =~= merged(left, right));
        assert(all[slot] == merged(left, right)[slot - 1]);
        lemma_tick_front(all, slot);
    }
}

/// Merging keeps every event at its tick.
///
/// Each event of either track is in the merge, at the place that [`slot_of_first`]
/// or [`slot_of_second`] names, with its payload, and the deltas of the merge up to
/// that place and including it add up to the tick that the event had in its own
/// track.
pub proof fn lemma_merge_keeps_ticks(first: Seq<TrackEvent>, second: Seq<TrackEvent>)
    ensures
        forall|i: int|
            0 <= i < first.len() ==> {
                let slot = #[trigger] slot_of_first(first, second, i);
                &&& 0 <= slot < merged(first, second).len()
                &&& merged(first, second)[slot].event == first[i].event
                &&& tick_at(merged(first, second), slot) == tick_at(first, i)
            },
        forall|j: int|
            0 <= j < second.len() ==> {
                let slot = #[trigger] slot_of_second(first, second, j);
                &&& 0 <= slot < merged(first, second).len()
                &&& merged(first, second)[slot].event == second[j].event
                &&& tick_at(merged(first, second), slot) == tick_at(second, j)
            },
{
    assert forall|i: int| 0 <= i < first.len() implies ({
        let slot = #[trigger] slot_of_first(first, second, i);
        &&& 0 <= slot < merged(first, second).len()
        &&& merged(first, second)[slot].event == first[i].event
        &&& tick_at(merged(first, second), slot) == tick_at(first, i)
    }) by {
        lemma_merge_keeps_first(first, second, i);
    }
    assert forall|j: int| 0 <= j < second.len() implies ({
        let slot = #[trigger] slot_of_second(first, second, j);
        &&& 0 <= slot < merged(first, second).len()
        &&& merged(first, second)[slot].event == second[j].event
        &&& tick_at(merged(first, second), slot) == tick_at(second, j)
    }) by {
        lemma_merge_keeps_second(first, second, j);
    }
}

/// Every place of a merge holds an event of one of the two tracks.
pub proof fn lemma_merge_is_covered(first: Seq<TrackEvent>, second: Seq<TrackEvent>, slot: int)
    requires
        0 <= slot < merged(first, second).len(),
    ensures
        (exists|i: int| 0 <= i < first.len() && slot_of_first(first, second, i) == slot) || (exists|
            j: int,
        |
            0 <= j < second.len() && slot_of_second(first, second, j) == slot),
    decreases first.len() + second.len(),
{
    if first.len() == 0 {
        assert(count_before(first, tick_at(second, slot) + 1) == 0);
        assert(slot_of_second(first, second, slot) == slot);
    } else if second.len() == 0 {
        assert(count_before(second, tick_at(first, slot)) == 0);
        assert(slot_of_first(first, second, slot) == slot);
    } else if slot == 0 {
        lemma_head_leads(first, second);
    } else if second[0].vtime < first[0].vtime {
        let left = first.update(0, rebased(first[0], second[0].vtime));
        let right = second.drop_first();
        lemma_merge_is_covered(left, right, slot - 1);
        if exists|i: int| 0 <= i < left.len() && slot_of_first(left, right, i) == slot - 1 {
            let i = choose|i: int| 0 <= i < left.len() && slot_of_first(left, right, i) == slot - 1;
            lemma_first_behind_second(first, second, i);
            assert(slot_of_first(first, second, i) == slot);
        } else {
            let j = choose|j: int| 0 <= j < right.len() && slot_of_second(left, right, j) == slot - 1;
            lemma_second_behind_second(first, second, j + 1);
            assert(slot_of_second(first, second, j + 1) == slot);
        }
    } else {
        let left = first.drop_first();
        let right = second.update(0, rebased(second[0], first[0].vtime));
        lemma_merge_is_covered(left, right, slot - 1);
        if exists|i: int| 0 <= i < left.len() && slot_of_first(left, right, i) == slot - 1 {
            let i = choose|i: int| 0 <= i < left.len() && slot_of_first(left, right, i) == slot - 1;
            lemma_first_behind_first(first, second, i + 1);
            assert(slot_of_first(first, second, i + 1) == slot);
        } else {
            let j = choose|j: int| 0 <= j < right.len() && slot_of_second(left, right, j) == slot - 1;
            lemma_second_behind_first(first, second, j);
            assert(slot_of_second(first, second, j) == slot);
        }
    }
}

/// The later the tick, the more events fall before it.
pub proof fn lemma_count_grows(track: Seq<TrackEvent>, tick: int, later: int)
    requires
        tick <= later,
    ensures
        count_before(track, tick) <= count_before(track, later),
    decreases track.len(),
{
    if track.len() > 0 {
        lemma_count_grows(track.drop_last(), tick, later);
    }
}

/// Merging keeps the order within each track.
pub proof fn lemma_merge_keeps_order(
    first: Seq<TrackEvent>,
    second: Seq<TrackEvent>,
    earlier: int,
    later: int,
)
    requires
        0 <= earlier < later,
    ensures
        later < first.len() ==> slot_of_first(first, second, earlier) < slot_of_first(
            first,
            second,
            later,
        ),
        later < second.len() ==> slot_of_second(first, second, earlier) < slot_of_second(
            first,
            second,
            later,
        ),
{
    if later < first.len() {
        lemma_ticks_ascend(first, earlier, later);
        lemma_count_grows(second, tick_at(first, earlier), tick_at(first, later));
    }
    if later < second.len() {
        lemma_ticks_ascend(second, earlier, later);
        lemma_count_grows(first, tick_at(second, earlier) + 1, tick_at(second, later) + 1);
    }
}

/// Merging orders the events of the two tracks by their ticks, and on the same
/// tick the event of the first track comes first.
pub proof fn lemma_merge_orders_by_tick(
    first: Seq<TrackEvent>,
    second: Seq<TrackEvent>,
    i: int,
    j: int,
)
    requires
        0 <= i < first.len(),
        0 <= j < second.len(),
    ensures
        tick_at(first, i) <= tick_at(second, j) ==> slot_of_first(first, second, i) < slot_of_second(
            first,
            second,
            j,
        ),
        tick_at(second, j) < tick_at(first, i) ==> slot_of_second(first, second, j) < slot_of_first(
            first,
            second,
            i,
        ),
{
    lemma_count_bounds(second, tick_at(first, i));
    lemma_count_bounds(first, tick_at(second, j) + 1);
}

/// The number of events in all of `tracks`.
pub open spec fn total_events(tracks: Seq<Vec<TrackEvent>>) -> nat
    decreases tracks.len(),
{
    if tracks.len() == 0 {
        0
    } else {
        total_events(tracks.drop_last()) + tracks.last()@.len()
    }
}

/// The place in the fold of all tracks of event `index` of track `track`.
pub open spec fn slot_in_all(tracks: Seq<Vec<TrackEvent>>, track: int, index: int) -> int
    decreases tracks.len(),
{
    if tracks.len() <= 1 {
        index
    } else if track == tracks.len() - 1 {
        slot_of_second(merged_all(tracks.drop_last()), tracks.last()@, index)
    } else {
        slot_of_first(
            merged_all(tracks.drop_last()),
            tracks.last()@,
            slot_in_all(tracks.drop_last(), track, index),
        )
    }
}

/// The fold of all tracks holds as many events as the tracks together.
pub proof fn lemma_merged_all_len(tracks: Seq<Vec<TrackEvent>>)
    ensures
        merged_all(tracks).len() == total_events(tracks),
    decreases tracks.len(),
{
    if tracks.len() == 1 {
        assert(total_events(tracks.drop_last()) == 0);
    } else if tracks.len() > 1 {
        lemma_merged_all_len(tracks.drop_last());
        lemma_merged_len(merged_all(tracks.drop_last()), tracks.last()@);
    }
}

/// The fold of all tracks keeps every event of every track at its tick.
///
/// Event `index` of track `track` is in the fold at the place that [`slot_in_all`]
/// names, with its payload, and the deltas of the fold up to that place and
/// including it add up to the tick that the event had in its own track.
pub proof fn lemma_merge_all_keeps_ticks(tracks: Seq<Vec<TrackEvent>>, track: int, index: int)
    requires
        0 <= track < tracks.len(),
        0 <= index < tracks[track]@.len(),
    ensures
        ({
            let slot = slot_in_all(tracks, track, index);
            &&& 0 <= slot < merged_all(tracks).len()
            &&& merged_all(tracks)[slot].event == tracks[track]@[index].event
            &&& tick_at(merged_all(tracks), slot) == tick_at(tracks[track]@, index)
        }),
    decreases tracks.len(),
{
    if tracks.len() > 1 {
        let before = tracks.drop_last();
        lemma_merge_keeps_ticks(merged_all(before), tracks.last()@);
        if track < tracks.len() - 1 {
            lemma_merge_all_keeps_ticks(before, track, index);
            let inner = slot_in_all(before, track, index);
            assert(slot_in_all(tracks, track, index) == slot_of_first(
                merged_all(before),
                tracks.last()@,
                inner,
            ));
        } else {
            assert(slot_in_all(tracks, track, index) == slot_of_second(
                merged_all(before),
                tracks.last()@,
                index,
            ));
        }
    }
}

/// The fold of all tracks keeps the order within each track.
pub proof fn lemma_merge_all_keeps_order(
    tracks: Seq<Vec<TrackEvent>>,
    track: int,
    earlier: int,
    later: int,
)
    requires
        0 <= track < tracks.len(),
        0 <= earlier < later < tracks[track]@.len(),
    ensures
        slot_in_all(tracks, track, earlier) < slot_in_all(tracks, track, later),
    decreases tracks.len(),
{
    if tracks.len() > 1 {
        let before = tracks.drop_last();
        if track < tracks.len() - 1 {
            lemma_merge_all_keeps_order(before, track, earlier, later);
            lemma_merge_all_keeps_ticks(before, track, later);
            lemma_merge_all_keeps_ticks(before, track, earlier);
            lemma_merge_keeps_order(
                merged_all(before),
                tracks.last()@,
                slot_in_all(before, track, earlier),
                slot_in_all(before, track, later),
            );
        } else {
            lemma_merge_keeps_order(merged_all(before), tracks.last()@, earlier, later);
        }
    }
}

/// The fold of all tracks orders the events of any two tracks by their ticks, and
/// on the same tick the event of the track that comes first in the file leads.
pub proof fn lemma_merge_all_orders_by_tick(
    tracks: Seq<Vec<TrackEvent>>,
    a: int,
    i: int,
    b: int,
    j: int,
)
    requires
        0 <= a < b < tracks.len(),
        0 <= i < tracks[a]@.len(),
        0 <= j < tracks[b]@.len(),
    ensures
        tick_at(tracks[a]@, i) <= tick_at(tracks[b]@, j) ==> slot_in_all(tracks, a, i) < slot_in_all(
            tracks,
            b,
            j,
        ),
        tick_at(tracks[b]@, j) < tick_at(tracks[a]@, i) ==> slot_in_all(tracks, b, j) < slot_in_all(
            tracks,
            a,
            i,
        ),
    decreases tracks.len(),
{
    let before = tracks.drop_last();
    let folded = merged_all(before);
    let last = tracks.last()@;
    lemma_merge_all_keeps_ticks(before, a, i);
    let from_a = slot_in_all(before, a, i);
    if b == tracks.len() - 1 {
        lemma_merge_orders_by_tick(folded, last, from_a, j);
    } else {
        lemma_merge_all_orders_by_tick(before, a, i, b, j);
        lemma_merge_all_keeps_ticks(before, b, j);
        let from_b = slot_in_all(before, b, j);
        if from_a < from_b {
            lemma_merge_keeps_order(folded, last, from_a, from_b);
        } else if from_b < from_a {
            lemma_merge_keeps_order(folded, last, from_b, from_a);
        }
    }
}

} // verus!
