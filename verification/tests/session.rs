use plmidi::event::{Event, MidiEvent, MidiMessage};
use plmidi::session::{prepare, total_duration};
use plmidi::timeline::Timeline;
use plmidi::timer::Speed;
use plmidi::track::Track;

fn track(name: &str, key: i16, beats: usize) -> Track {
    let mut moments = vec![vec![
        Event::Tempo(1_000_000),
        Event::Midi(MidiEvent { channel: 0, message: MidiMessage::NoteOn { key, vel: 1 } }),
    ]];
    for _ in 0..beats {
        moments.push(vec![]);
    }
    moments.push(vec![Event::Midi(MidiEvent {
        channel: 0,
        message: MidiMessage::NoteOff { key, vel: 1 },
    })]);
    Track::from_timeline(name.to_string(), 1, Timeline::from_moments(moments).unwrap()).unwrap()
}

fn names(tracks: &[Track]) -> Vec<String> {
    tracks.iter().map(|t| t.name().clone()).collect()
}

fn first_key(track: &Track) -> i16 {
    match track.sheet().moment(0)[1] {
        Event::Midi(MidiEvent { message: MidiMessage::NoteOn { key, .. }, .. }) => key,
        _ => panic!("no note"),
    }
}

#[test]
fn prepare_without_shuffle_keeps_the_order_and_transposes() {
    let mut tracks = vec![track("a", 10, 1), track("b", 20, 2), track("c", 30, 3)];
    prepare(&mut tracks, 5, false);
    assert_eq!(names(&tracks), vec!["a", "b", "c"]);
    assert_eq!(tracks.iter().map(first_key).collect::<Vec<_>>(), vec![15, 25, 35]);
    assert_eq!(tracks[1].duration(), 3_000_000);
}

#[test]
fn prepare_with_zero_semitones_changes_nothing() {
    let mut tracks = vec![track("a", 10, 1), track("b", 127, 2)];
    prepare(&mut tracks, 0, false);
    assert_eq!(tracks.iter().map(first_key).collect::<Vec<_>>(), vec![10, 127]);
}

#[test]
fn shuffle_keeps_every_track_once() {
    let mut tracks: Vec<Track> =
        (0..60).map(|i| track(&format!("track {:02}", i), i as i16, 1)).collect();
    let before = names(&tracks);
    prepare(&mut tracks, 3, true);
    let after = names(&tracks);
    assert_eq!(after.len(), 60);
    // sixty tracks do not come out in the order given
    assert_ne!(after, before);
    let mut sorted = after.clone();
    sorted.sort();
    assert_eq!(sorted, before);
    for t in &tracks {
        let number: i16 = t.name()[6..].parse().unwrap();
        assert_eq!(first_key(t), number + 3);
    }
}

#[test]
fn total_duration_adds_the_tracks_at_the_speed() {
    let tracks = vec![track("a", 1, 1), track("b", 2, 2), track("c", 3, 3)];
    assert_eq!(total_duration(&tracks, Speed::unit()), 2_000_000 + 3_000_000 + 4_000_000);
    assert_eq!(total_duration(&tracks, Speed::new(2, 1).unwrap()), 4_500_000);
    assert_eq!(total_duration(&tracks, Speed::new(1, 3).unwrap()), 27_000_000);
    assert_eq!(total_duration(&Vec::new(), Speed::unit()), 0);
}
