use plmidi::event::{Event, MidiEvent, MidiMessage};
use plmidi::midi::{has_rate_overflow, Format, MidiFile};
use plmidi::timeline::{RawEvent, Timeline};
use plmidi::timer::Speed;
use plmidi::track::{Track, TrackError};

fn header(format: u16, tracks: u16, division: u16) -> Vec<u8> {
    let mut bytes = b"MThd".to_vec();
    bytes.extend([0, 0, 0, 6]);
    bytes.extend(format.to_be_bytes());
    bytes.extend(tracks.to_be_bytes());
    bytes.extend(division.to_be_bytes());
    bytes
}

fn chunk(body: &[u8]) -> Vec<u8> {
    let mut bytes = b"MTrk".to_vec();
    bytes.extend((body.len() as u32).to_be_bytes());
    bytes.extend(body);
    bytes
}

const END: [u8; 4] = [0x00, 0xff, 0x2f, 0x00];

/// Tempo 500 000 and a note on at tick 0, the note off 96 ticks later.
fn melody() -> Vec<u8> {
    let mut body = vec![0x00, 0xff, 0x51, 0x03, 0x07, 0xa1, 0x20];
    body.extend([0x00, 0x90, 0x3c, 0x40]);
    body.extend([0x60, 0x80, 0x3c, 0x41]);
    body.extend(END);
    body
}

/// One of each channel message without a key, on channels 1 to 4, one tick
/// apart, and an aftertouch for a key.
fn controls() -> Vec<u8> {
    let mut body = vec![0x01, 0xb1, 0x07, 0x64];
    body.extend([0x01, 0xc2, 0x05]);
    body.extend([0x01, 0xd3, 0x33]);
    body.extend([0x01, 0xe4, 0x01, 0x02]);
    body.extend([0x81, 0x00, 0xa5, 0x30, 0x31]);
    body.extend(END);
    body
}

fn midi(channel: u8, message: MidiMessage) -> Option<Event> {
    Some(Event::Midi(MidiEvent { channel, message }))
}

#[test]
fn parse_gives_header_and_entries() {
    let mut bytes = header(1, 2, 96);
    bytes.extend(chunk(&melody()));
    bytes.extend(chunk(&controls()));
    let file = MidiFile::parse(&bytes).unwrap();
    assert_eq!(file.ticks_per_beat, Some(96));
    assert_eq!(file.format, Format::Parallel);
    assert_eq!(file.tracks.len(), 2);
    assert_eq!(
        file.tracks[0],
        vec![
            RawEvent { delta: 0, event: Some(Event::Tempo(500_000)) },
            RawEvent { delta: 0, event: midi(0, MidiMessage::NoteOn { key: 60, vel: 64 }) },
            RawEvent { delta: 96, event: midi(0, MidiMessage::NoteOff { key: 60, vel: 65 }) },
            RawEvent { delta: 0, event: None },
        ]
    );
    assert_eq!(
        file.tracks[1],
        vec![
            RawEvent {
                delta: 1,
                event: midi(1, MidiMessage::Controller { controller: 7, value: 100 })
            },
            RawEvent { delta: 1, event: midi(2, MidiMessage::ProgramChange { program: 5 }) },
            RawEvent { delta: 1, event: midi(3, MidiMessage::ChannelAftertouch { vel: 51 }) },
            RawEvent { delta: 1, event: midi(4, MidiMessage::PitchBend { bend: 1 + (2 << 7) }) },
            RawEvent { delta: 128, event: midi(5, MidiMessage::Aftertouch { key: 48, vel: 49 }) },
            RawEvent { delta: 0, event: None },
        ]
    );
}

#[test]
fn parse_tells_the_formats_apart() {
    let mut single = header(0, 1, 96);
    single.extend(chunk(&melody()));
    assert_eq!(MidiFile::parse(&single).unwrap().format, Format::SingleTrack);
    let mut sequential = header(2, 1, 96);
    sequential.extend(chunk(&melody()));
    assert_eq!(MidiFile::parse(&sequential).unwrap().format, Format::Sequential);
}

#[test]
fn parse_refuses_what_is_no_midi_file() {
    assert!(MidiFile::parse(b"").is_err());
    assert!(MidiFile::parse(b"not a midi file at all").is_err());
    let message = MidiFile::parse(b"RIFFxxxx").unwrap_err();
    assert!(!message.is_empty());
}

#[test]
fn track_of_single_track_file() {
    let mut bytes = header(0, 1, 96);
    bytes.extend(chunk(&melody()));
    let track = Track::new("song".to_string(), &bytes).unwrap();
    assert_eq!(track.name(), "song");
    assert_eq!(track.tpb(), 96);
    assert_eq!(track.sheet().len(), 97);
    assert_eq!(
        track.sheet().moment(0),
        &vec![
            Event::Tempo(500_000),
            Event::Midi(MidiEvent { channel: 0, message: MidiMessage::NoteOn { key: 60, vel: 64 } })
        ]
    );
    assert!(track.sheet().moment(1).is_empty());
    assert_eq!(
        track.sheet().moment(96),
        &vec![Event::Midi(MidiEvent {
            channel: 0,
            message: MidiMessage::NoteOff { key: 60, vel: 65 }
        })]
    );
    // one beat at 500 000 microseconds per beat
    assert_eq!(track.duration(), 500_000);
    assert_eq!(track.duration_at(Speed::new(2, 1).unwrap()), 250_000);
    assert_eq!(track.duration_at(Speed::new(1, 2).unwrap()), 1_000_000);
}

#[test]
fn parallel_file_is_merged_and_sequential_file_is_joined() {
    let mut parallel = header(1, 2, 96);
    parallel.extend(chunk(&melody()));
    parallel.extend(chunk(&controls()));
    let merged = Track::new("p".to_string(), &parallel).unwrap();
    assert_eq!(merged.sheet().len(), 133);
    assert_eq!(merged.sheet().moment(1).len(), 1);
    assert_eq!(merged.sheet().moment(96).len(), 1);
    assert_eq!(merged.sheet().moment(132).len(), 1);

    let mut sequential = header(2, 2, 96);
    sequential.extend(chunk(&melody()));
    sequential.extend(chunk(&controls()));
    let joined = Track::new("s".to_string(), &sequential).unwrap();
    assert_eq!(joined.sheet().len(), 97 + 133);
    assert_eq!(joined.sheet().moment(96).len(), 1);
    assert_eq!(joined.sheet().moment(97).len(), 0);
    assert_eq!(joined.sheet().moment(98).len(), 1);
    assert_eq!(joined.sheet().moment(97 + 132).len(), 1);

    // several tracks under the single-track format are joined as well
    let mut single = header(0, 2, 96);
    single.extend(chunk(&melody()));
    single.extend(chunk(&controls()));
    if let Ok(track) = Track::new("x".to_string(), &single) {
        assert_eq!(track.sheet().len(), 97 + 133);
    }
}

#[test]
fn bytes_that_do_not_parse_give_a_parse_error() {
    let error = Track::new("bad".to_string(), b"MThd").unwrap_err();
    assert!(matches!(error, TrackError::Parse(_)));
}

#[test]
fn timecode_timing_is_not_supported() {
    // 25 frames per second, 40 ticks per frame
    let mut bytes = header(0, 1, 0xe728);
    bytes.extend(chunk(&melody()));
    let file = MidiFile::parse(&bytes).unwrap();
    assert_eq!(file.ticks_per_beat, None);
    let error = Track::new("smpte".to_string(), &bytes).unwrap_err();
    assert!(matches!(error, TrackError::UnsupportedTiming));
}

#[test]
fn zero_ticks_per_beat_is_not_supported() {
    let mut bytes = header(0, 1, 0);
    bytes.extend(chunk(&melody()));
    let error = Track::new("zero".to_string(), &bytes).unwrap_err();
    assert!(matches!(error, TrackError::UnsupportedTiming));
    let file = MidiFile { ticks_per_beat: Some(0), format: Format::Parallel, tracks: vec![] };
    assert!(matches!(
        Track::from_file("zero".to_string(), &file),
        Err(TrackError::UnsupportedTiming)
    ));
}

#[test]
fn file_longer_than_the_limit_is_too_long() {
    let far = RawEvent { delta: u32::MAX, event: None };
    for format in [Format::SingleTrack, Format::Parallel, Format::Sequential] {
        let file = MidiFile { ticks_per_beat: Some(96), format, tracks: vec![vec![far]] };
        assert!(matches!(Track::from_file("far".to_string(), &file), Err(TrackError::TooLong)));
    }
    // sixteen deltas of 2^28 ticks, as a file can hold them
    let mut body = Vec::new();
    for _ in 0..16 {
        body.extend([0xff, 0xff, 0xff, 0x7f, 0x90, 0x3c, 0x40]);
        body.extend([0x01, 0x80, 0x3c, 0x40]);
    }
    body.extend(END);
    let mut bytes = header(0, 1, 96);
    bytes.extend(chunk(&body));
    assert!(matches!(Track::new("far".to_string(), &bytes), Err(TrackError::TooLong)));
}

#[test]
fn from_file_lays_out_as_the_format_says() {
    let a = vec![RawEvent { delta: 2, event: Some(Event::Tempo(1)) }];
    let b = vec![RawEvent { delta: 4, event: Some(Event::Tempo(2)) }];
    let tracks = vec![a, b];
    let lengths = [(Format::SingleTrack, 8), (Format::Sequential, 8), (Format::Parallel, 5)];
    for (format, ticks) in lengths {
        let file = MidiFile { ticks_per_beat: Some(24), format, tracks: tracks.clone() };
        let track = Track::from_file("t".to_string(), &file).unwrap();
        assert_eq!(track.sheet().len(), ticks);
        assert_eq!(track.tpb(), 24);
    }
}

#[test]
fn from_timeline_needs_ticks_per_beat() {
    assert!(Track::from_timeline("t".to_string(), 0, Timeline::new()).is_none());
    let track = Track::from_timeline("t".to_string(), 1, Timeline::new()).unwrap();
    assert_eq!(track.duration(), 0);
    assert_eq!(track.sheet().len(), 0);
}

#[test]
fn transposing_a_track_keeps_name_and_duration() {
    let mut bytes = header(0, 1, 96);
    bytes.extend(chunk(&melody()));
    let mut track = Track::new("song".to_string(), &bytes).unwrap();
    track.transpose(7, false);
    assert_eq!(track.name(), "song");
    assert_eq!(track.tpb(), 96);
    assert_eq!(track.duration(), 500_000);
    assert_eq!(
        track.sheet().moment(96),
        &vec![Event::Midi(MidiEvent {
            channel: 0,
            message: MidiMessage::NoteOff { key: 67, vel: 65 }
        })]
    );
    track.transpose(-7, false);
    assert_eq!(
        track.sheet().moment(0)[1],
        Event::Midi(MidiEvent { channel: 0, message: MidiMessage::NoteOn { key: 60, vel: 64 } })
    );
}

/// A header whose timing begins with `first`.
fn header_with_rate(first: u8) -> Vec<u8> {
    header(0, 1, (first as u16) << 8 | 0x28)
}

fn riff(smf: &[u8]) -> Vec<u8> {
    let mut inner = b"RMID".to_vec();
    inner.extend(b"LIST");
    inner.extend(3u32.to_le_bytes());
    inner.extend([1, 2, 3, 0]);
    inner.extend(b"data");
    inner.extend((smf.len() as u32).to_le_bytes());
    inner.extend(smf);
    let mut bytes = b"RIFF".to_vec();
    bytes.extend((inner.len() as u32).to_le_bytes());
    bytes.extend(inner);
    bytes
}

#[test]
fn frame_rate_that_eight_bits_do_not_hold_is_refused() {
    let least = [0x4d, 0x54, 0x68, 0x64, 0, 0, 0, 6, 0, 0, 0, 1, 0x80, 0];
    assert!(has_rate_overflow(&least));
    assert!(MidiFile::parse(&least).is_err());
    assert!(matches!(Track::new("x".to_string(), &least), Err(TrackError::Parse(_))));

    let mut whole = header_with_rate(0x80);
    whole.extend(chunk(&melody()));
    assert!(has_rate_overflow(&whole));
    assert!(MidiFile::parse(&whole).is_err());

    // the header chunk may be cut short by the end of the file, and still be read
    let mut long = b"MThd".to_vec();
    long.extend([0, 0, 1, 0, 0, 2, 0, 1, 0x80, 0x10]);
    assert!(has_rate_overflow(&long));
    assert!(MidiFile::parse(&long).is_err());
}

#[test]
fn frame_rate_is_looked_for_where_the_decoder_looks() {
    // behind a chunk of another name
    let mut behind = b"MThd".to_vec();
    behind.clear();
    behind.extend(header(1, 1, 96));
    behind.extend(b"XFIH");
    behind.extend([0, 0, 0, 2, 9, 9]);
    behind.extend(chunk(&melody()));
    behind.extend(header_with_rate(0x80));
    assert!(has_rate_overflow(&behind));
    assert!(MidiFile::parse(&behind).is_err());

    // in the wrapper of an RMID file
    let mut bad = header_with_rate(0x80);
    bad.extend(chunk(&melody()));
    assert!(has_rate_overflow(&riff(&bad)));
    assert!(MidiFile::parse(&riff(&bad)).is_err());

    let mut good = header(0, 1, 96);
    good.extend(chunk(&melody()));
    assert!(!has_rate_overflow(&riff(&good)));
    let wrapped = MidiFile::parse(&riff(&good)).unwrap();
    let plain = MidiFile::parse(&good).unwrap();
    assert_eq!(wrapped.tracks, plain.tracks);
    assert_eq!(wrapped.ticks_per_beat, Some(96));
}

#[test]
fn bytes_that_never_come_to_the_frame_rate_go_to_the_decoder() {
    let mut cases: Vec<Vec<u8>> = Vec::new();
    // the byte in the data of a track
    let mut inside = header(0, 1, 96);
    let mut body = vec![0x00, 0xff, 0x01, 0x0e];
    body.extend(b"MThd");
    body.extend([0, 0, 0, 6, 0, 0, 0, 1, 0x80, 0]);
    body.extend(END);
    inside.extend(chunk(&body));
    cases.push(inside);
    // a format that no file has
    cases.push(header(3, 1, 0x8000));
    // a header too short for a timing
    let mut short = b"MThd".to_vec();
    short.extend([0, 0, 0, 4, 0, 0, 0, 1, 0x80, 0]);
    cases.push(short);
    // a track before any header
    let mut early = chunk(&melody());
    early.extend(header_with_rate(0x80));
    cases.push(early);
    // behind a header that cannot be read
    let mut after = header_with_rate(0x81);
    after.extend(header_with_rate(0x80));
    cases.push(after);
    // other rates, known and unknown
    for first in [0x00u8, 0x7f, 0x81, 0xc0, 0xe2, 0xe3, 0xe7, 0xe8, 0xff] {
        let mut bytes = header_with_rate(first);
        bytes.extend(chunk(&melody()));
        cases.push(bytes);
    }
    // no file at all
    cases.push(Vec::new());
    cases.push(b"MTh".to_vec());
    cases.push(b"RIFF".to_vec());
    cases.push(b"RIFF\x04\x00\x00\x00RMID".to_vec());
    for bytes in &cases {
        assert!(!has_rate_overflow(bytes), "{:?}", bytes);
        // the decoder takes them, whatever it makes of them
        let _ = MidiFile::parse(bytes);
    }
    let inside = MidiFile::parse(&cases[0]).unwrap();
    assert_eq!(inside.tracks.len(), 1);
}

#[test]
fn a_second_header_with_a_known_rate_is_passed_over() {
    let mut bytes = header(1, 2, 96);
    bytes.extend(chunk(&melody()));
    bytes.extend(header_with_rate(0xe7));
    bytes.extend(chunk(&controls()));
    assert!(!has_rate_overflow(&bytes));
    let file = MidiFile::parse(&bytes).unwrap();
    assert_eq!(file.tracks.len(), 2);
    assert_eq!(file.ticks_per_beat, Some(96));
}

#[test]
fn errors_read_as_the_operator_expects() {
    assert_eq!(
        TrackError::Parse("bad chunk".to_string()).message("a/b.mid"),
        "can't parse a/b.mid as midi: bad chunk"
    );
    assert_eq!(
        TrackError::UnsupportedTiming.message("song.mid"),
        "song.mid has an unsupported time format"
    );
    assert_eq!(TrackError::TooLong.message("x"), "x is too long to play");
    let least = [0x4d, 0x54, 0x68, 0x64, 0, 0, 0, 6, 0, 0, 0, 1, 0x80, 0];
    let error = Track::new("x".to_string(), &least).unwrap_err();
    assert_eq!(error.message("x.mid"), "can't parse x.mid as midi: invalid midi header: invalid smpte fps");
}
