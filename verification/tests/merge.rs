use midi_player::midi_file::{
    combine_tracks, merge_tracks, Event, MetaCommand, MetaEvent, MidiMessage, TrackEvent,
};

fn midi(vtime: u64, bytes: &[u8]) -> TrackEvent {
    TrackEvent { vtime, event: Event::Midi(MidiMessage { data: bytes.to_vec() }) }
}

fn tempo(vtime: u64, micros: u32) -> TrackEvent {
    let data = vec![(micros >> 16) as u8, (micros >> 8) as u8, micros as u8];
    TrackEvent {
        vtime,
        event: Event::Meta(MetaEvent { command: MetaCommand::TempoSetting, length: 3, data }),
    }
}

fn deltas(track: &[TrackEvent]) -> Vec<u64> {
    track.iter().map(|e| e.vtime).collect()
}

fn ticks(track: &[TrackEvent]) -> Vec<u64> {
    let mut now = 0;
    track
        .iter()
        .map(|e| {
            now += e.vtime;
            now
        })
        .collect()
}

fn first_bytes(track: &[TrackEvent]) -> Vec<u8> {
    track
        .iter()
        .map(|e| match &e.event {
            Event::Midi(m) => m.data[0],
            Event::Meta(m) => m.data[0],
        })
        .collect()
}

#[test]
fn merge_of_two_empty_tracks_is_empty() {
    assert_eq!(combine_tracks(Vec::new(), Vec::new()), Vec::new());
}

#[test]
fn merge_with_an_empty_track_is_the_other_track() {
    let track = vec![midi(5, &[1]), midi(0, &[2]), midi(7, &[3])];
    assert_eq!(combine_tracks(track.clone(), Vec::new()), track);
    assert_eq!(combine_tracks(Vec::new(), track.clone()), track);
}

#[test]
fn merge_holds_every_event_of_both_tracks() {
    let a = vec![midi(10, &[0xA1]), midi(10, &[0xA2]), midi(5, &[0xA3])];
    let b = vec![midi(10, &[0xB1]), midi(15, &[0xB2])];
    let merged = combine_tracks(a.clone(), b.clone());
    assert_eq!(merged.len(), a.len() + b.len());
}

#[test]
fn merge_rebases_the_deltas() {
    let a = vec![midi(10, &[0xA1]), midi(10, &[0xA2]), midi(5, &[0xA3])];
    let b = vec![midi(10, &[0xB1]), midi(15, &[0xB2])];
    let merged = combine_tracks(a, b);
    assert_eq!(first_bytes(&merged), vec![0xA1, 0xB1, 0xA2, 0xA3, 0xB2]);
    assert_eq!(deltas(&merged), vec![10, 0, 10, 5, 0]);
}

#[test]
fn merge_keeps_every_event_at_its_tick() {
    let a = vec![midi(10, &[0xA1]), midi(10, &[0xA2]), midi(5, &[0xA3])];
    let b = vec![midi(10, &[0xB1]), midi(15, &[0xB2])];
    let merged = combine_tracks(a.clone(), b.clone());
    let at = ticks(&merged);
    // the first track's events sit at places 0, 2, 3, the second's at 1, 4
    assert_eq!(vec![at[0], at[2], at[3]], ticks(&a));
    assert_eq!(vec![at[1], at[4]], ticks(&b));
    assert_eq!(at, vec![10, 10, 20, 25, 25]);
}

#[test]
fn merge_puts_the_second_track_first_when_it_is_earlier() {
    let a = vec![midi(7, &[0xA1])];
    let b = vec![midi(3, &[0xB1]), midi(100, &[0xB2])];
    let merged = combine_tracks(a, b);
    assert_eq!(first_bytes(&merged), vec![0xB1, 0xA1, 0xB2]);
    assert_eq!(deltas(&merged), vec![3, 4, 96]);
}

#[test]
fn tie_goes_to_the_first_track() {
    let a = midi(0, &[0x90, 60, 100]);
    let b = midi(0, &[0x91, 64, 100]);
    let merged = combine_tracks(vec![a.clone()], vec![b.clone()]);
    assert_eq!(merged, vec![a, b]);
}

#[test]
fn tie_on_a_later_tick_goes_to_the_first_track() {
    let a = vec![midi(4, &[0xA1]), midi(4, &[0xA2])];
    let b = vec![midi(8, &[0xB1])];
    let merged = combine_tracks(a, b);
    assert_eq!(first_bytes(&merged), vec![0xA1, 0xA2, 0xB1]);
    assert_eq!(deltas(&merged), vec![4, 4, 0]);
}

#[test]
fn merge_does_not_overflow_on_large_deltas() {
    let a = vec![midi(u64::MAX, &[0xA1])];
    let b = vec![midi(u64::MAX - 1, &[0xB1])];
    let merged = combine_tracks(a, b);
    assert_eq!(first_bytes(&merged), vec![0xB1, 0xA1]);
    assert_eq!(deltas(&merged), vec![u64::MAX - 1, 1]);
}

#[test]
fn two_track_file_merges_note_tempo_note() {
    let note_on = midi(0, &[0x90, 60, 127]);
    let note_off = midi(96, &[0x80, 60, 0]);
    let set_tempo = tempo(48, 250000);
    let merged = combine_tracks(vec![note_on.clone(), note_off.clone()], vec![set_tempo.clone()]);
    assert_eq!(merged.len(), 3);
    assert_eq!(merged[0], note_on);
    assert_eq!(merged[1], set_tempo);
    assert_eq!(merged[2], TrackEvent { vtime: 48, event: note_off.event });
}

#[test]
fn no_track_gives_no_merge() {
    assert_eq!(merge_tracks(Vec::new()), None);
}

#[test]
fn one_track_is_its_own_merge() {
    let track = vec![midi(3, &[1]), midi(4, &[2])];
    assert_eq!(merge_tracks(vec![track.clone()]), Some(track));
}

#[test]
fn one_empty_track_gives_an_empty_merge() {
    assert_eq!(merge_tracks(vec![Vec::new()]), Some(Vec::new()));
}

#[test]
fn tracks_fold_in_from_the_first_on() {
    let a = vec![midi(5, &[0xA1]), midi(5, &[0xA2])];
    let b = vec![midi(5, &[0xB1])];
    let c = vec![midi(0, &[0xC1]), midi(5, &[0xC2]), midi(6, &[0xC3])];
    let merged = merge_tracks(vec![a.clone(), b.clone(), c.clone()]).unwrap();
    // ticks: a at 5, 10; b at 5; c at 0, 5, 11; on a tie the earlier track leads
    assert_eq!(first_bytes(&merged), vec![0xC1, 0xA1, 0xB1, 0xC2, 0xA2, 0xC3]);
    assert_eq!(deltas(&merged), vec![0, 5, 0, 0, 5, 1]);
    assert_eq!(ticks(&merged), vec![0, 5, 5, 5, 10, 11]);
    assert_eq!(merged.len(), a.len() + b.len() + c.len());
    let folded = combine_tracks(combine_tracks(a, b), c);
    assert_eq!(merged, folded);
}
