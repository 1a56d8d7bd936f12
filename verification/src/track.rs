//! A track: the timeline of one file, with its name and its length in time.

use vstd::prelude::*;
use crate::event::Event;
use crate::midi::{decoded, Format, MidiFile, MidiFileView};
use crate::timeline::{
    keys_in_range, lemma_parallel_in_range, lemma_sequential_in_range, max_ticks, parallel,
    raw_keys_in_range, sequential, sum_ticks, transposed, RawEvent, Timeline, MAX_TICKS,
};
use crate::timer::{lemma_transposed_keeps_time, total_delay, Pausable, Speed};

verus! {

/// One entry of a playlist.
#[derive(Debug)]
pub struct Track {
    name: String,
    tpb: u16,
    sheet: Timeline,
    duration: u128,
}

/// What a [`Track`] holds, as plain values.
pub struct TrackView {
    /// The name under which the track is shown.
    pub name: Seq<char>,
    /// Ticks per beat: never zero.
    pub tpb: u16,
    /// The moments of the track, one for each tick.
    pub sheet: Seq<Seq<Event>>,
    /// Microseconds that the track takes at unit speed.
    pub duration: nat,
}

/// Why a file gives no track.
#[derive(Debug)]
pub enum TrackError {
    /// The bytes are no standard MIDI file; the decoder's message is kept.
    Parse(String),
    /// The file counts time in another way than ticks per beat, or in zero
    /// ticks per beat.
    UnsupportedTiming,
    /// The timeline would be longer than `MAX_TICKS` ticks.
    TooLong,
}

/// A [`TrackError`] without the decoder's message.
#[derive(Clone, Copy, Debug, PartialEq, Eq, Structural)]
pub enum TrackErrorKind {
    Parse,
    UnsupportedTiming,
    TooLong,
}

impl TrackError {
    /// What the operator is told where the file at `path` gives no track.
    pub open spec fn message_text(self, path: Seq<char>) -> Seq<char> {
        match self {
            TrackError::Parse(detail) => "can't parse "@ + path + " as midi: "@ + detail@,
            TrackError::UnsupportedTiming => path + " has an unsupported time format"@,
            TrackError::TooLong => path + " is too long to play"@,
        }
    }

    /// Writes [`TrackError::message_text`].
    pub fn message(&self, path: &str) -> (text: String)
        ensures
            text@ == self.message_text(path@),
    {
        match self {
            TrackError::Parse(detail) => {
                let mut text = String::from_str("can't parse ");
                text.append(path);
                text.append(" as midi: ");
                text.append(detail.as_str());
                text
            },
            TrackError::UnsupportedTiming => {
                let mut text = String::from_str(path);
                text.append(" has an unsupported time format");
                text
            },
            TrackError::TooLong => {
                let mut text = String::from_str(path);
                text.append(" is too long to play");
                text
            },
        }
    }

    /// Which error this is.
    pub open spec fn kind(self) -> TrackErrorKind {
        match self {
            TrackError::Parse(_) => TrackErrorKind::Parse,
            TrackError::UnsupportedTiming => TrackErrorKind::UnsupportedTiming,
            TrackError::TooLong => TrackErrorKind::TooLong,
        }
    }
}

/// The timeline of a file: its sub-tracks side by side where the format says
/// that they sound together, and one after the other for the other formats.
pub open spec fn layout(format: Format, tracks: Seq<Seq<RawEvent>>) -> Seq<Seq<Event>> {
    match format {
        Format::Parallel => parallel(tracks),
        _ => sequential(tracks),
    }
}

/// The length in ticks of [`layout`].
pub open spec fn layout_ticks(format: Format, tracks: Seq<Seq<RawEvent>>) -> nat {
    match format {
        Format::Parallel => max_ticks(tracks, tracks.len() as int),
        _ => sum_ticks(tracks, tracks.len() as int),
    }
}

/// What a decoded file named `name` gives: the track, or the reason why
/// there is none.
pub open spec fn track_of(name: Seq<char>, file: MidiFileView) -> Result<TrackView, TrackErrorKind> {
    match file.ticks_per_beat {
        None => Err(TrackErrorKind::UnsupportedTiming),
        Some(tpb) => if tpb == 0 {
            Err(TrackErrorKind::UnsupportedTiming)
        } else if layout_ticks(file.format, file.tracks) > MAX_TICKS {
            Err(TrackErrorKind::TooLong)
        } else {
            Ok(
                TrackView {
                    name,
                    tpb,
                    sheet: layout(file.format, file.tracks),
                    duration: unit_duration(layout(file.format, file.tracks), tpb),
                },
            )
        },
    }
}

/// What a file gives where it gives a track: the name asked for, the ticks
/// per beat of its header, the layout of its sub-tracks as its timeline, as
/// long as the layout says and never over `MAX_TICKS`, and as its duration
/// the waits of that timeline, added up at unit speed from no tempo.
pub proof fn lemma_track_of_file(name: Seq<char>, file: MidiFileView)
    requires
        track_of(name, file) is Ok,
    ensures
        ({
            let track = track_of(name, file)->Ok_0;
            &&& track.name == name
            &&& file.ticks_per_beat == Some(track.tpb) && track.tpb > 0
            &&& track.sheet == layout(file.format, file.tracks)
            &&& track.sheet.len() == layout_ticks(file.format, file.tracks) <= MAX_TICKS
            &&& file.format == Format::Parallel ==> track.sheet.len() == max_ticks(
                file.tracks,
                file.tracks.len() as int,
            )
            &&& file.format != Format::Parallel ==> track.sheet.len() == sum_ticks(
                file.tracks,
                file.tracks.len() as int,
            )
            &&& track.duration == total_delay(
                track.sheet,
                track.sheet.len() as int,
                0,
                track.tpb as nat,
                1,
                1,
            )
        }),
{
    crate::timeline::lemma_sequential_len(file.tracks);
    crate::timeline::lemma_parallel_len(file.tracks);
}

/// A file gives a track exactly when it counts time in ticks per beat, more
/// than zero of them, and its layout is no longer than `MAX_TICKS`.
pub proof fn lemma_track_of_file_is_owed(name: Seq<char>, file: MidiFileView)
    ensures
        track_of(name, file) is Ok <==> (file.ticks_per_beat matches Some(tpb) && tpb > 0
            && layout_ticks(file.format, file.tracks) <= MAX_TICKS),
{
}

/// What the bytes `data` of a file named `name` give.
pub open spec fn track_from_bytes(name: Seq<char>, data: Seq<u8>) -> Result<
    TrackView,
    TrackErrorKind,
> {
    match decoded(data) {
        None => Err(TrackErrorKind::Parse),
        Some(file) => track_of(name, file),
    }
}

/// Whether `r` is the result `expected`, error for error.
pub open spec fn gives(r: Result<Track, TrackError>, expected: Result<TrackView, TrackErrorKind>) -> bool {
    match (r, expected) {
        (Ok(track), Ok(view)) => track@ == view,
        (Err(error), Err(kind)) => error.kind() == kind,
        _ => false,
    }
}

/// The time that `sheet` takes at `tpb` ticks per beat and unit speed, played
/// from its first tick with no tempo set.
pub open spec fn unit_duration(sheet: Seq<Seq<Event>>, tpb: u16) -> nat {
    total_delay(sheet, sheet.len() as int, 0, tpb as nat, 1, 1)
}

impl View for Track {
    type V = TrackView;

    closed spec fn view(&self) -> TrackView {
        TrackView {
            name: self.name@,
            tpb: self.tpb,
            sheet: self.sheet@,
            duration: self.duration as nat,
        }
    }
}

impl Track {
    #[verifier::type_invariant]
    spec fn consistent(self) -> bool {
        self.tpb > 0 && self.duration == unit_duration(self.sheet@, self.tpb)
    }

    /// The track named `name` that plays `sheet` at `tpb` ticks per beat, or
    /// `None` where `tpb` is zero.
    pub fn from_timeline(name: String, tpb: u16, sheet: Timeline) -> (r: Option<Track>)
        ensures
            match r {
                Some(track) => track@ == (TrackView {
                    name: name@,
                    tpb,
                    sheet: sheet@,
                    duration: unit_duration(sheet@, tpb),
                }),
                None => tpb == 0,
            },
            tpb > 0 ==> r is Some,
    {
        if tpb == 0 {
            None
        } else {
            let duration = Pausable::new(tpb).duration(&sheet);
            Some(Track { name, tpb, sheet, duration })
        }
    }

    /// The track of the decoded file `file`, under the name `name`.
    ///
    /// There is none where the file does not count time in ticks per beat,
    /// where it counts zero of them, and where its timeline would be too
    /// long. Else the sub-tracks are laid out as the format says, and the
    /// duration is that of the timeline at unit speed.
    pub fn from_file(name: String, file: &MidiFile) -> (r: Result<Track, TrackError>)
        ensures
            gives(r, track_of(name@, file@)),
            r matches Ok(track) ==> (raw_keys_in_range(file@.tracks) ==> keys_in_range(track@.sheet)),
    {
        let tpb = match file.ticks_per_beat {
            Some(tpb) => tpb,
            None => {
                return Err(TrackError::UnsupportedTiming);
            },
        };
        if tpb == 0 {
            return Err(TrackError::UnsupportedTiming);
        }
        let built = match file.format {
            Format::Parallel => Timeline::parallel(&file.tracks),
            _ => Timeline::sequential(&file.tracks),
        };
        let sheet = match built {
            Some(sheet) => sheet,
            None => {
                return Err(TrackError::TooLong);
            },
        };
        proof {
            if raw_keys_in_range(file@.tracks) {
                lemma_parallel_in_range(file@.tracks);
                lemma_sequential_in_range(file@.tracks);
            }
        }
        let duration = Pausable::new(tpb).duration(&sheet);
        Ok(Track { name, tpb, sheet, duration })
    }

    /// The track that the bytes `data` of a standard MIDI file hold, under
    /// the name `name`: the bytes are decoded, and the decoded file gives the
    /// track as [`Track::from_file`] says. Every key of the track lies in the
    /// MIDI note range.
    pub fn new(name: String, data: &[u8]) -> (r: Result<Track, TrackError>)
        ensures
            gives(r, track_from_bytes(name@, data@)),
            r matches Ok(track) ==> keys_in_range(track@.sheet),
    {
        match MidiFile::parse(data) {
            Ok(file) => Track::from_file(name, &file),
            Err(message) => Err(TrackError::Parse(message)),
        }
    }

    /// Moves every key of the track by `semitones`. Name, ticks per beat and
    /// duration stay: transposing changes no wait.
    pub fn transpose(&mut self, semitones: i8, clamp_to_range: bool)
        ensures
            final(self)@ == (TrackView {
                sheet: transposed(old(self)@.sheet, semitones, clamp_to_range),
                ..old(self)@
            }),
    {
        proof {
            use_type_invariant(&*self);
            lemma_transposed_keeps_time(
                self.sheet@,
                semitones,
                clamp_to_range,
                self.sheet@.len() as int,
                0,
                self.tpb as nat,
                1,
                1,
            );
        }
        let next = self.sheet.transposed(semitones, clamp_to_range);
        self.sheet = next;
    }

    /// Microseconds that the track takes at the speed `speed`: the time from
    /// its first tick to its last event.
    pub fn duration_at(&self, speed: Speed) -> (micros: u128)
        ensures
            micros == total_delay(
                self@.sheet,
                self@.sheet.len() as int,
                0,
                self@.tpb as nat,
                speed.num(),
                speed.den(),
            ),
    {
        proof {
            use_type_invariant(self);
        }
        let mut clock = Pausable::new(self.tpb);
        clock.set_speed(speed);
        clock.duration(&self.sheet)
    }

    /// The name under which the track is shown.
    pub fn name(&self) -> (name: &String)
        ensures
            name@ == self@.name,
    {
        &self.name
    }

    /// Ticks per beat.
    pub fn tpb(&self) -> (tpb: u16)
        ensures
            tpb == self@.tpb,
            tpb > 0,
    {
        proof {
            use_type_invariant(self);
        }
        self.tpb
    }

    /// The timeline.
    pub fn sheet(&self) -> (sheet: &Timeline)
        ensures
            sheet@ == self@.sheet,
    {
        &self.sheet
    }

    /// Microseconds that the track takes at unit speed.
    pub fn duration(&self) -> (micros: u128)
        ensures
            micros == self@.duration,
            micros == unit_duration(self@.sheet, self@.tpb),
    {
        proof {
            use_type_invariant(self);
        }
        self.duration
    }
}

} // verus!
