//! The events of a sequence file, and the two passes that turn its tracks into one
//! timeline ready for playback.

use vstd::prelude::*;
use crate::timeline::{lemma_merge_keeps_ticks, slot_of_first, slot_of_second, tick_at};

verus! {

/// The kind of a meta event.
#[derive(Clone, Copy, Debug, PartialEq, Eq, Structural)]
pub enum MetaCommand {
    SequenceNumber,
    TextEvent,
    CopyrightNotice,
    SequenceOrTrackName,
    InstrumentName,
    LyricText,
    MarkerText,
    CuePoint,
    MIDIChannelPrefixAssignment,
    MIDIPortPrefixAssignment,
    EndOfTrack,
    TempoSetting,
    SMPTEOffset,
    TimeSignature,
    KeySignature,
    SequencerSpecificEvent,
    Unknown,
}

/// A control event of the file: it never reaches the device.
#[derive(Clone, Debug, PartialEq, Eq)]
pub struct MetaEvent {
    pub command: MetaCommand,
    /// The length that the file declares for the data.
    pub length: u64,
    pub data: Vec<u8>,
}

/// A channel message: the status byte, then its data bytes.
#[derive(Clone, Debug, PartialEq, Eq)]
pub struct MidiMessage {
    pub data: Vec<u8>,
}

/// What a track holds at one point in time.
#[derive(Clone, Debug, PartialEq, Eq)]
pub enum Event {
    Midi(MidiMessage),
    Meta(MetaEvent),
}

/// An event of a track, `vtime` ticks after the event before it.
#[derive(Clone, Debug, PartialEq, Eq)]
pub struct TrackEvent {
    pub vtime: u64,
    pub event: Event,
}

/// What playback does with an event.
#[derive(Clone, Debug, PartialEq, Eq)]
pub enum LocalEvent {
    /// A message of at most three bytes, sent in one word.
    Midi(Vec<u8>),
    /// A longer message, sent from a buffer that the driver reads on its own time.
    SysEx(Vec<u8>),
    /// A control event for the scheduler itself.
    Meta(MetaEvent),
}

/// An event of the playback timeline, `delta_time` ticks after the event before it.
#[derive(Clone, Debug, PartialEq, Eq)]
pub struct DataEvent {
    pub delta_time: u64,
    pub data: LocalEvent,
}

/// How many bytes of a tempo event hold the tempo.
pub const TEMPO_BYTES: usize = 3;

/// The number that `bytes` spell, most significant byte first.
pub open spec fn big_endian(bytes: Seq<u8>) -> int
    decreases bytes.len(),
{
    if bytes.len() == 0 {
        0
    } else {
        256 * big_endian(bytes.drop_last()) + bytes.last()
    }
}

/// Reads the first `bytes` bytes of a meta event's data as one number.
///
/// Calls `rimd::MetaEvent::data_as_u64`, which shifts the bytes in from the
/// left-most on, eight bits each: for up to eight bytes that is their big-endian
/// value. It indexes the data without a check, so `bytes` may not pass its length.
#[verifier::external_body]
fn data_as_u64(data: &Vec<u8>, bytes: usize) -> (value: u64)
    requires
        bytes <= data@.len(),
        bytes <= 8,
    ensures
        value == big_endian(data@.take(bytes as int)),
{
    let event = rimd::MetaEvent {
        command: rimd::MetaCommand::Unknown,
        length: data.len() as u64,
        data: data.clone(),
    };
    event.data_as_u64(bytes)
}

impl MetaEvent {
    /// The tempo, in microseconds per quarter note, that this event sets: the
    /// big-endian value of its first three data bytes. An event of another kind, or
    /// one with fewer than three bytes, sets none.
    pub open spec fn tempo_setting(&self) -> Option<u64> {
        if self.command == MetaCommand::TempoSetting && self.data@.len() >= TEMPO_BYTES {
            Some(big_endian(self.data@.take(TEMPO_BYTES as int)) as u64)
        } else {
            None
        }
    }

    /// The tempo that this event sets, if it sets one.
    pub fn tempo(&self) -> (tempo: Option<u64>)
        ensures
            tempo == self.tempo_setting(),
    {
        match self.command {
            MetaCommand::TempoSetting => {
                if self.data.len() >= TEMPO_BYTES {
                    Some(data_as_u64(&self.data, TEMPO_BYTES))
                } else {
                    None
                }
            },
            _ => None,
        }
    }
}

impl DataEvent {
    /// An event of the playback timeline.
    pub fn new(delta_time: u64, data: LocalEvent) -> (event: Self)
        ensures
            event.delta_time == delta_time,
            event.data == data,
    {
        Self { delta_time, data }
    }
}

/// How an event of the file is played: a channel message of up to three bytes as a
/// short message, a longer one as a long message, a meta event as itself.
pub open spec fn classified(event: Event) -> LocalEvent {
    match event {
        Event::Midi(message) => if message.data@.len() <= 3 {
            LocalEvent::Midi(message.data)
        } else {
            LocalEvent::SysEx(message.data)
        },
        Event::Meta(meta) => LocalEvent::Meta(meta),
    }
}

/// The playback timeline of a merged track: event for event, at the same ticks.
pub open spec fn compiled(events: Seq<TrackEvent>) -> Seq<DataEvent> {
    Seq::new(
        events.len(),
        |i: int| DataEvent { delta_time: events[i].vtime, data: classified(events[i].event) },
    )
}

/// The elements of `items`, last first.
fn reversed<T>(items: Vec<T>) -> (turned: Vec<T>)
    ensures
        turned@ == items@.reverse(),
{
    let mut items = items;
    let ghost all = items@;
    let mut turned: Vec<T> = Vec::new();
    while items.len() > 0
        invariant
            items@.len() + turned@.len() == all.len(),
            items@ == all.take(items@.len() as int),
            forall|i: int| 0 <= i < turned@.len() ==> turned@[i] == all[all.len() - 1 - i],
        decreases items@.len(),
    {
        let item = items.pop().unwrap();
        turned.push(item);
    }
    assert(turned@ =~= all.reverse());
    turned
}

/// The event `event` with its delta counted from a point `by` ticks later.
pub open spec fn rebased(event: TrackEvent, by: u64) -> TrackEvent {
    TrackEvent { vtime: (event.vtime - by) as u64, event: event.event }
}

/// The merge of two tracks into one.
///
/// Each track has a pending head, whose delta counts from the last event that was
/// emitted. The head with the smaller delta is emitted next, the first track's on
/// a tie, with that delta; the other head's delta shrinks by as much. Once a track
/// is used up, the rest of the other follows as it is.
pub open spec fn merged(first: Seq<TrackEvent>, second: Seq<TrackEvent>) -> Seq<TrackEvent>
    decreases first.len() + second.len(),
{
    if first.len() == 0 {
        second
    } else if second.len() == 0 {
        first
    } else if second[0].vtime < first[0].vtime {
        seq![second[0]] + merged(
            first.update(0, rebased(first[0], second[0].vtime)),
            second.drop_first(),
        )
    } else {
        seq![first[0]] + merged(
            first.drop_first(),
            second.update(0, rebased(second[0], first[0].vtime)),
        )
    }
}

/// What is left of a track: its pending head, then the events not yet read, which
/// `unread` holds last first.
spec fn pending(head: Option<TrackEvent>, unread: Seq<TrackEvent>) -> Seq<TrackEvent> {
    match head {
        Some(event) => seq![event] + unread.reverse(),
        None => Seq::empty(),
    }
}

/// Taking the head off a track read from the back of `unread`.
proof fn lemma_pending_pop(unread: Seq<TrackEvent>)
    ensures
        unread.len() > 0 ==> pending(Some(unread.last()), unread.drop_last()) == unread.reverse(),
        unread.len() == 0 ==> unread.reverse() == Seq::<TrackEvent>::empty(),
{
    if unread.len() > 0 {
        assert(pending(Some(unread.last()), unread.drop_last()) =~= unread.reverse());
    } else {
        assert(unread.reverse() =~= Seq::<TrackEvent>::empty());
    }
}

/// Merges two tracks into one, in the order of their ticks.
///
/// The result is [`merged`] of the two. It holds as many events as both tracks
/// together. Each event of either track is in it, at the place that
/// [`slot_of_first`] or [`slot_of_second`] names, with its payload, and the deltas
/// up to that place and including it add up to the tick that the event had in its
/// own track. Where two events fall on the same tick, the one of `track1_events`
/// comes first.
pub fn combine_tracks(track1_events: Vec<TrackEvent>, track2_events: Vec<TrackEvent>) -> (combined:
    Vec<TrackEvent>)
    ensures
        combined@ == merged(track1_events@, track2_events@),
        combined@.len() == track1_events@.len() + track2_events@.len(),
        forall|i: int|
            0 <= i < track1_events@.len() ==> {
                let slot = #[trigger] slot_of_first(track1_events@, track2_events@, i);
                &&& 0 <= slot < combined@.len()
                &&& combined@[slot].event == track1_events@[i].event
                &&& tick_at(combined@, slot) == tick_at(track1_events@, i)
            },
        forall|j: int|
            0 <= j < track2_events@.len() ==> {
                let slot = #[trigger] slot_of_second(track1_events@, track2_events@, j);
                &&& 0 <= slot < combined@.len()
                &&& combined@[slot].event == track2_events@[j].event
                &&& tick_at(combined@, slot) == tick_at(track2_events@, j)
            },
{
    let ghost first = track1_events@;
    let ghost second = track2_events@;
    let mut combined: Vec<TrackEvent> = Vec::new();
    let mut track1 = reversed(track1_events);
    let mut track2 = reversed(track2_events);
    proof {
        lemma_pending_pop(track1@);
        lemma_pending_pop(track2@);
        assert(first.reverse().reverse() =~= first);
        assert(second.reverse().reverse() =~= second);
    }
    let mut t0 = track1.pop();
    let mut t1 = track2.pop();
    while t0.is_some() || t1.is_some()
        invariant
            merged(first, second) == combined@ + merged(pending(t0, track1@), pending(t1, track2@)),
            t0 is None ==> track1@.len() == 0,
            t1 is None ==> track2@.len() == 0,
        decreases pending(t0, track1@).len() + pending(t1, track2@).len(),
    {
        let ghost left = pending(t0, track1@);
        let ghost right = pending(t1, track2@);
        let ghost before = combined@;
        let first_selected = match (&t0, &t1) {
            (Some(e0), Some(e1)) => !(e1.vtime < e0.vtime),
            (Some(_), None) => true,
            _ => false,
        };
        if first_selected {
            let selected = t0.unwrap();
            t1 =
            match t1 {
                Some(other) => Some(
                    TrackEvent { vtime: other.vtime - selected.vtime, event: other.event },
                ),
                None => None,
            };
            combined.push(selected);
            proof {
                lemma_pending_pop(track1@);
            }
            t0 = track1.pop();
            proof {
                assert(pending(t0, track1@) =~= left.drop_first());
                if right.len() > 0 {
                    assert(pending(t1, track2@) =~= right.update(0, rebased(right[0], left[0].vtime)));
                }
                assert(combined@ + merged(pending(t0, track1@), pending(t1, track2@)) =~= before
                    + merged(left, right));
            }
        } else {
            let selected = t1.unwrap();
            t0 =
            match t0 {
                Some(other) => Some(
                    TrackEvent { vtime: other.vtime - selected.vtime, event: other.event },
                ),
                None => None,
            };
            combined.push(selected);
            proof {
                lemma_pending_pop(track2@);
            }
            t1 = track2.pop();
            proof {
                assert(pending(t1, track2@) =~= right.drop_first());
                if left.len() > 0 {
                    assert(pending(t0, track1@) =~= left.update(0, rebased(left[0], right[0].vtime)));
                }
                assert(combined@ + merged(pending(t0, track1@), pending(t1, track2@)) =~= before
                    + merged(left, right));
            }
        }
    }
    proof {
        assert(combined@ + Seq::<TrackEvent>::empty() =~= combined@);
        lemma_merged_len(first, second);
        lemma_merge_keeps_ticks(first, second);
    }
    combined
}

/// The tracks of a file folded into one: the first merged with the second, the
/// result with the third, and so on.
pub open spec fn merged_all(tracks: Seq<Vec<TrackEvent>>) -> Seq<TrackEvent>
    decreases tracks.len(),
{
    if tracks.len() == 0 {
        Seq::empty()
    } else if tracks.len() == 1 {
        tracks[0]@
    } else {
        merged(merged_all(tracks.drop_last()), tracks.last()@)
    }
}

/// Merges the tracks of a file into one, folding them in from the first on.
///
/// Without a track there is nothing to merge and the answer is `None`.
pub fn merge_tracks(tracks: Vec<Vec<TrackEvent>>) -> (folded: Option<Vec<TrackEvent>>)
    ensures
        match folded {
            Some(events) => tracks@.len() > 0 && events@ == merged_all(tracks@),
            None => tracks@.len() == 0,
        },
{
    let ghost all = tracks@;
    let mut rest = reversed(tracks);
    let mut events: Vec<TrackEvent> = match rest.pop() {
        Some(first) => first,
        None => {
            return None;
        },
    };
    assert(all.take(1) =~= seq![all[0]]);
    while rest.len() > 0
        invariant
            rest@.len() < all.len(),
            rest@ == all.reverse().take(rest@.len() as int),
            events@ == merged_all(all.take(all.len() - rest@.len())),
        decreases rest@.len(),
    {
        let ghost done = all.len() - rest@.len();
        let track = rest.pop().unwrap();
        assert(track == all[done]);
        assert(all.take(done + 1).drop_last() =~= all.take(done));
        events = combine_tracks(events, track);
    }
    assert(all.take(all.len() as int) =~= all);
    Some(events)
}

/// A merge holds as many events as its two tracks together.
pub proof fn lemma_merged_len(first: Seq<TrackEvent>, second: Seq<TrackEvent>)
    ensures
        merged(first, second).len() == first.len() + second.len(),
    decreases first.len() + second.len(),
{
    if first.len() == 0 || second.len() == 0 {
    } else if second[0].vtime < first[0].vtime {
        lemma_merged_len(first.update(0, rebased(first[0], second[0].vtime)), second.drop_first());
    } else {
        lemma_merged_len(first.drop_first(), second.update(0, rebased(second[0], first[0].vtime)));
    }
}

/// Turns a merged track into the playback timeline.
///
/// Nothing is dropped, joined or moved: event `i` of the result is event `i` of
/// the track, with the same delta, classified by [`classified`].
pub fn combine_events(events: Vec<TrackEvent>) -> (combined: Vec<DataEvent>)
    ensures
        combined@ == compiled(events@),
{
    let ghost all = events@;
    let mut rest = reversed(events);
    let mut combined: Vec<DataEvent> = Vec::new();
    while rest.len() > 0
        invariant
            rest@.len() + combined@.len() == all.len(),
            rest@ == all.reverse().take(rest@.len() as int),
            combined@ == compiled(all).take(combined@.len() as int),
        decreases rest@.len(),
    {
        let ghost i = combined@.len() as int;
        let event = rest.pop().unwrap();
        assert(event == all[i]);
        let data = match event.event {
            Event::Midi(message) => {
                if message.data.len() <= 3 {
                    LocalEvent::Midi(message.data)
                } else {
                    LocalEvent::SysEx(message.data)
                }
            },
            Event::Meta(meta) => LocalEvent::Meta(meta),
        };
        combined.push(DataEvent::new(event.vtime, data));
        assert(combined@ =~= compiled(all).take(i + 1));
    }
    assert(combined@ =~= compiled(all));
    combined
}

} // verus!
