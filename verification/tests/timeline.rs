use nodi::midly::num::{u24, u28, u4, u7};
use nodi::midly::{MetaMessage, TrackEvent, TrackEventKind};
use nodi::Sheet;
use plmidi::event::{shift_key, Event, MidiEvent, MidiMessage};
use plmidi::timeline::{RawEvent, Timeline, MAX_TICKS};

fn on(channel: u8, key: i16) -> Event {
    Event::Midi(MidiEvent { channel, message: MidiMessage::NoteOn { key, vel: 90 } })
}

fn raw(delta: u32, event: Event) -> RawEvent {
    RawEvent { delta, event: Some(event) }
}

fn gap(delta: u32) -> RawEvent {
    RawEvent { delta, event: None }
}

fn moments(timeline: &Timeline) -> Vec<Vec<Event>> {
    timeline.moments().clone()
}

fn first() -> Vec<RawEvent> {
    vec![raw(0, Event::Tempo(500_000)), raw(0, on(0, 60)), raw(2, on(0, 62)), gap(1)]
}

fn second() -> Vec<RawEvent> {
    vec![raw(1, on(1, 40)), raw(1, on(1, 41)), raw(0, on(1, 42)), raw(3, on(1, 43))]
}

#[test]
fn one_track_is_laid_out_tick_by_tick() {
    let timeline = Timeline::sequential(&vec![first()]).unwrap();
    assert_eq!(
        moments(&timeline),
        vec![vec![Event::Tempo(500_000), on(0, 60)], vec![], vec![on(0, 62)], vec![]]
    );
    assert_eq!(timeline.len(), 4);
    assert_eq!(timeline.moment(2), &vec![on(0, 62)]);
}

#[test]
fn sequential_length_is_the_sum_of_the_lengths() {
    let timeline = Timeline::sequential(&vec![first(), second(), first()]).unwrap();
    assert_eq!(timeline.len(), 4 + 6 + 4);
    assert_eq!(
        moments(&timeline),
        vec![
            vec![Event::Tempo(500_000), on(0, 60)],
            vec![],
            vec![on(0, 62)],
            vec![],
            vec![],
            vec![on(1, 40)],
            vec![on(1, 41), on(1, 42)],
            vec![],
            vec![],
            vec![on(1, 43)],
            vec![Event::Tempo(500_000), on(0, 60)],
            vec![],
            vec![on(0, 62)],
            vec![],
        ]
    );
}

#[test]
fn parallel_length_is_the_greatest_length() {
    let timeline = Timeline::parallel(&vec![first(), second()]).unwrap();
    assert_eq!(timeline.len(), 6);
    let swapped = Timeline::parallel(&vec![second(), first()]).unwrap();
    assert_eq!(swapped.len(), 6);
    assert_eq!(Timeline::parallel(&vec![first(), first()]).unwrap().len(), 4);
}

#[test]
fn parallel_keeps_source_order_within_a_tick() {
    let timeline = Timeline::parallel(&vec![first(), second(), second()]).unwrap();
    assert_eq!(
        moments(&timeline),
        vec![
            vec![Event::Tempo(500_000), on(0, 60)],
            vec![on(1, 40), on(1, 40)],
            vec![on(0, 62), on(1, 41), on(1, 42), on(1, 41), on(1, 42)],
            vec![],
            vec![],
            vec![on(1, 43), on(1, 43)],
        ]
    );
}

#[test]
fn no_track_gives_no_tick() {
    assert_eq!(Timeline::sequential(&Vec::new()).unwrap().len(), 0);
    assert_eq!(Timeline::parallel(&Vec::new()).unwrap().len(), 0);
    assert_eq!(Timeline::new().len(), 0);
}

#[test]
fn empty_track_is_one_tick_long() {
    assert_eq!(moments(&Timeline::sequential(&vec![vec![]]).unwrap()), vec![vec![]]);
    assert_eq!(moments(&Timeline::parallel(&vec![vec![], vec![]]).unwrap()), vec![vec![]]);
    assert_eq!(Timeline::sequential(&vec![vec![], vec![]]).unwrap().len(), 2);
}

#[test]
fn too_long_a_timeline_is_refused() {
    let far = vec![gap(u32::MAX)];
    assert!(Timeline::sequential(&vec![far.clone()]).is_none());
    assert!(Timeline::parallel(&vec![first(), far]).is_none());
    assert_eq!(MAX_TICKS as u64, u32::MAX as u64);
}

#[test]
fn from_moments_keeps_the_moments() {
    let given = vec![vec![on(0, 1)], vec![], vec![Event::Tempo(9), on(0, 2)]];
    let timeline = Timeline::from_moments(given.clone()).unwrap();
    assert_eq!(moments(&timeline), given);
}

#[test]
fn transpose_moves_keys_of_notes_and_aftertouch_only() {
    let given = vec![vec![
        Event::Tempo(5),
        Event::Midi(MidiEvent { channel: 9, message: MidiMessage::NoteOn { key: 60, vel: 1 } }),
        Event::Midi(MidiEvent { channel: 2, message: MidiMessage::NoteOff { key: 61, vel: 2 } }),
        Event::Midi(MidiEvent { channel: 3, message: MidiMessage::Aftertouch { key: 62, vel: 3 } }),
        Event::Midi(MidiEvent {
            channel: 4,
            message: MidiMessage::Controller { controller: 63, value: 4 },
        }),
        Event::Midi(MidiEvent { channel: 5, message: MidiMessage::ProgramChange { program: 64 } }),
        Event::Midi(MidiEvent { channel: 6, message: MidiMessage::ChannelAftertouch { vel: 65 } }),
        Event::Midi(MidiEvent { channel: 7, message: MidiMessage::PitchBend { bend: 66 } }),
    ]];
    let mut timeline = Timeline::from_moments(given.clone()).unwrap();
    timeline.transpose(-12, false);
    let mut expected = given.clone();
    expected[0][1] =
        Event::Midi(MidiEvent { channel: 9, message: MidiMessage::NoteOn { key: 48, vel: 1 } });
    expected[0][2] =
        Event::Midi(MidiEvent { channel: 2, message: MidiMessage::NoteOff { key: 49, vel: 2 } });
    expected[0][3] =
        Event::Midi(MidiEvent { channel: 3, message: MidiMessage::Aftertouch { key: 50, vel: 3 } });
    assert_eq!(moments(&timeline), expected);
}

#[test]
fn transpose_up_then_down_restores_every_key_in_range() {
    for k in [1i8, 12, 64, 127, -1, -12, -64, -127] {
        let given: Vec<Vec<Event>> = (0..128).map(|key| vec![on(0, key), on(9, 127 - key)]).collect();
        let mut timeline = Timeline::from_moments(given.clone()).unwrap();
        timeline.transpose(k, false);
        assert_ne!(moments(&timeline), given);
        timeline.transpose(-k, false);
        assert_eq!(moments(&timeline), given);
    }
}

#[test]
fn keys_out_of_range_pass_through_unless_clamped() {
    let given = vec![vec![on(0, 0), on(0, 64), on(0, 127)]];
    let mut free = Timeline::from_moments(given.clone()).unwrap();
    free.transpose(100, false);
    assert_eq!(moments(&free), vec![vec![on(0, 100), on(0, 164), on(0, 227)]]);
    let mut below = Timeline::from_moments(given.clone()).unwrap();
    below.transpose(-100, false);
    assert_eq!(moments(&below), vec![vec![on(0, -100), on(0, -36), on(0, 27)]]);
    let mut clamped = Timeline::from_moments(given.clone()).unwrap();
    clamped.transpose(100, true);
    assert_eq!(moments(&clamped), vec![vec![on(0, 100), on(0, 127), on(0, 127)]]);
    let low = Timeline::from_moments(given).unwrap().transposed(-100, true);
    assert_eq!(moments(&low), vec![vec![on(0, 0), on(0, 0), on(0, 27)]]);
}

#[test]
fn shifted_key_values() {
    assert_eq!(shift_key(60, 12, false), 72);
    assert_eq!(shift_key(60, -128, false), -68);
    assert_eq!(shift_key(127, 127, false), 254);
    assert_eq!(shift_key(127, 127, true), 127);
    assert_eq!(shift_key(0, -1, true), 0);
    assert_eq!(shift_key(i16::MAX, 1, false), i16::MAX);
    assert_eq!(shift_key(i16::MIN, -1, false), i16::MIN);
    assert_eq!(shift_key(300, 0, true), 127);
    assert_eq!(shift_key(300, 0, false), 300);
}

// The same sub-tracks in the decoder's types, to hold the layout against the
// sheet that `nodi` builds from them.

fn outside(track: &[RawEvent]) -> Vec<TrackEvent<'static>> {
    track
        .iter()
        .map(|entry| TrackEvent {
            delta: u28::new(entry.delta),
            kind: match entry.event {
                Some(Event::Tempo(t)) => TrackEventKind::Meta(MetaMessage::Tempo(u24::new(t))),
                Some(Event::Midi(MidiEvent {
                    channel,
                    message: MidiMessage::NoteOn { key, vel },
                })) => TrackEventKind::Midi {
                    channel: u4::new(channel),
                    message: nodi::midly::MidiMessage::NoteOn {
                        key: u7::new(key as u8),
                        vel: u7::new(vel),
                    },
                },
                Some(_) => unreachable!(),
                None => TrackEventKind::Meta(MetaMessage::EndOfTrack),
            },
        })
        .collect()
}

fn inside(sheet: &Sheet) -> Vec<Vec<Event>> {
    sheet
        .iter()
        .map(|moment| {
            moment
                .events
                .iter()
                .map(|event| match event {
                    nodi::Event::Tempo(t) => Event::Tempo(*t),
                    nodi::Event::Midi(e) => match e.message {
                        nodi::midly::MidiMessage::NoteOn { key, vel } => Event::Midi(MidiEvent {
                            channel: e.channel.as_int(),
                            message: MidiMessage::NoteOn {
                                key: key.as_int() as i16,
                                vel: vel.as_int(),
                            },
                        }),
                        _ => unreachable!(),
                    },
                    _ => unreachable!(),
                })
                .collect()
        })
        .collect()
}

#[test]
fn layouts_agree_with_the_sheets_of_nodi() {
    let sets: Vec<Vec<Vec<RawEvent>>> = vec![
        vec![],
        vec![vec![]],
        vec![first()],
        vec![first(), second()],
        vec![second(), first(), vec![], second()],
        vec![vec![gap(5)], vec![raw(7, on(3, 3))], vec![raw(0, on(4, 4)), raw(0, on(5, 5))]],
    ];
    for tracks in sets {
        let theirs: Vec<Vec<TrackEvent<'static>>> = tracks.iter().map(|t| outside(t)).collect();
        let sequential = Timeline::sequential(&tracks).unwrap();
        assert_eq!(moments(&sequential), inside(&Sheet::sequential(&theirs)));
        let parallel = Timeline::parallel(&tracks).unwrap();
        assert_eq!(moments(&parallel), inside(&Sheet::parallel(&theirs)));
    }
}

#[test]
fn transposition_agrees_with_nodi_where_no_key_leaves_the_range() {
    // `nodi` drops a note that leaves the range and never moves channel 9;
    // where neither plays a part the two transpose alike.
    let tracks = vec![
        vec![raw(0, Event::Tempo(1)), raw(1, on(0, 30)), raw(0, on(1, 60)), raw(2, on(8, 90))],
        vec![raw(1, on(10, 45)), raw(5, on(15, 75))],
    ];
    let theirs: Vec<Vec<TrackEvent<'static>>> = tracks.iter().map(|t| outside(t)).collect();
    for shift in [-30i8, -1, 0, 1, 12, 37] {
        let mut sheet = Sheet::parallel(&theirs);
        sheet.transpose(shift, false);
        let mut timeline = Timeline::parallel(&tracks).unwrap();
        timeline.transpose(shift, false);
        assert_eq!(moments(&timeline), inside(&sheet));
    }
}

#[test]
fn only_events_within_the_wire_can_be_sent() {
    let note = |channel: u8, key: i16, vel: u8| MidiEvent {
        channel,
        message: MidiMessage::NoteOn { key, vel },
    };
    assert!(note(0, 0, 0).can_be_sent());
    assert!(note(15, 127, 127).can_be_sent());
    assert!(!note(16, 60, 60).can_be_sent());
    assert!(!note(0, 128, 60).can_be_sent());
    assert!(!note(0, -1, 60).can_be_sent());
    assert!(!note(0, 60, 128).can_be_sent());
    let others = [
        (MidiMessage::NoteOff { key: 127, vel: 127 }, true),
        (MidiMessage::NoteOff { key: 200, vel: 1 }, false),
        (MidiMessage::Aftertouch { key: 1, vel: 1 }, true),
        (MidiMessage::Aftertouch { key: 1, vel: 255 }, false),
        (MidiMessage::Controller { controller: 127, value: 127 }, true),
        (MidiMessage::Controller { controller: 128, value: 0 }, false),
        (MidiMessage::Controller { controller: 0, value: 128 }, false),
        (MidiMessage::ProgramChange { program: 127 }, true),
        (MidiMessage::ProgramChange { program: 128 }, false),
        (MidiMessage::ChannelAftertouch { vel: 127 }, true),
        (MidiMessage::ChannelAftertouch { vel: 128 }, false),
        (MidiMessage::PitchBend { bend: 0x3fff }, true),
        (MidiMessage::PitchBend { bend: 0x4000 }, false),
    ];
    for (message, expected) in others {
        assert_eq!(MidiEvent { channel: 3, message }.can_be_sent(), expected, "{:?}", message);
    }
    // a transposition without clamping can carry a note off the wire
    let mut timeline = Timeline::from_moments(vec![vec![on(0, 120)]]).unwrap();
    timeline.transpose(10, false);
    match timeline.moment(0)[0] {
        Event::Midi(event) => assert!(!event.can_be_sent()),
        _ => unreachable!(),
    }
}
