//! Standard MIDI files: the decoder's result as plain values.
//!
//! The bytes of a file are decoded by `midly`. What this module trusts of it
//! stands in the contracts of the private functions below; the loops that
//! copy its result into a [`MidiFile`] are verified against them.

use vstd::prelude::*;
use nodi::midly::{MetaMessage, MidiMessage as Wire, Smf, Timing, TrackEventKind};
use crate::event::{Event, MidiEvent, MidiMessage};
use crate::timeline::{raw_keys_in_range, raw_view, RawEvent};

verus! {

/// How the sub-tracks of a file relate in time.
#[derive(Clone, Copy, Debug, PartialEq, Eq, Structural)]
pub enum Format {
    /// One sub-track.
    SingleTrack,
    /// Sub-tracks that sound together.
    Parallel,
    /// Sub-tracks that follow one another.
    Sequential,
}

/// A decoded file.
#[derive(Debug)]
pub struct MidiFile {
    /// Ticks per beat, where the file counts time in beats.
    pub ticks_per_beat: Option<u16>,
    /// How the sub-tracks relate in time.
    pub format: Format,
    /// The sub-tracks, in the order of the file.
    pub tracks: Vec<Vec<RawEvent>>,
}

/// A [`MidiFile`] as plain values.
pub struct MidiFileView {
    pub ticks_per_beat: Option<u16>,
    pub format: Format,
    pub tracks: Seq<Seq<RawEvent>>,
}

impl View for MidiFile {
    type V = MidiFileView;

    open spec fn view(&self) -> MidiFileView {
        MidiFileView {
            ticks_per_beat: self.ticks_per_beat,
            format: self.format,
            tracks: raw_view(self.tracks@),
        }
    }
}

#[verifier::external_type_specification]
#[verifier::external_body]
pub struct ExSmf<'a>(Smf<'a>);

/// What `midly::Smf::parse` makes of the bytes `data`: the decoded file, or
/// `None` where it reports an error.
pub uninterp spec fn parsed(data: Seq<u8>) -> Option<MidiFileView>;

/// What a decoded `midly::Smf` holds: its header's timing and format, and
/// for each entry of each track the delta and, of its kind, what a timeline
/// keeps (a tempo, a channel message) or nothing.
pub uninterp spec fn smf_file(smf: Smf) -> MidiFileView;

/// What the bytes `data` decode to: nothing where a frame rate in them
/// overflows, and else what the decoder makes of them.
pub open spec fn decoded(data: Seq<u8>) -> Option<MidiFileView> {
    if rate_overflow(data) {
        None
    } else {
        parsed(data)
    }
}

/// The tempo of an entry, if it is a tempo change.
pub open spec fn tempo_of(entry: RawEvent) -> Option<u32> {
    match entry.event {
        Some(Event::Tempo(t)) => Some(t),
        _ => None,
    }
}

/// The channel message of an entry, if it is one for a key.
pub open spec fn note_of(entry: RawEvent) -> Option<MidiEvent> {
    match entry.event {
        Some(Event::Midi(e)) => if e.message.has_key() {
            Some(e)
        } else {
            None
        },
        _ => None,
    }
}

/// The channel message of an entry, if it is one without a key.
pub open spec fn control_of(entry: RawEvent) -> Option<MidiEvent> {
    match entry.event {
        Some(Event::Midi(e)) => if e.message.has_key() {
            None
        } else {
            Some(e)
        },
        _ => None,
    }
}

/// The four bytes of `data` from `at` on, read as one number with the first
/// byte weighing most.
pub open spec fn be32(data: Seq<u8>, at: int) -> nat {
    (data[at] as nat) * 0x100_0000 + (data[at + 1] as nat) * 0x1_0000 + (data[at + 2] as nat)
        * 0x100 + data[at + 3] as nat
}

/// The four bytes of `data` from `at` on, read as one number with the first
/// byte weighing least.
pub open spec fn le32(data: Seq<u8>, at: int) -> nat {
    (data[at + 3] as nat) * 0x100_0000 + (data[at + 2] as nat) * 0x1_0000 + (data[at + 1] as nat)
        * 0x100 + data[at] as nat
}

/// Whether the four bytes of `data` from `at` on are `a`, `b`, `c`, `d`.
pub open spec fn tagged(data: Seq<u8>, at: int, a: u8, b: u8, c: u8, d: u8) -> bool {
    data[at] == a && data[at + 1] == b && data[at + 2] == c && data[at + 3] == d
}

/// Where a chunk's data ends that begins at `start` and is said to be `len`
/// bytes long, in a file that ends at `end`: a chunk that is cut short takes
/// what is left.
pub open spec fn chunk_end(start: int, len: nat, end: int) -> int {
    if len <= end - start {
        start + len
    } else {
        end
    }
}

/// Where the `data` chunk of an RMID wrapper lies, looked for from `at` on
/// among chunks that end at `end`: each has four bytes of name, four of
/// length with the first byte weighing least, and its data, after which a
/// byte of padding follows where the length is odd.
pub open spec fn riff_data(data: Seq<u8>, at: int, end: int) -> Option<(int, int)>
    decreases end - at,
{
    if end - at < 8 || at < 0 {
        None
    } else {
        let len = le32(data, at + 4);
        let stop = chunk_end(at + 8, len, end);
        if tagged(data, at, 0x64, 0x61, 0x74, 0x61) {
            Some((at + 8, stop))
        } else {
            let next = if len % 2 == 1 && stop < end {
                stop + 1
            } else {
                stop
            };
            riff_data(data, next, end)
        }
    }
}

/// The part of `data` that holds the chunks of a MIDI file: all of it where
/// it begins with `MThd`, and the `data` chunk of the wrapper where it begins
/// with `RIFF` and is of the form `RMID`.
pub open spec fn smf_span(data: Seq<u8>) -> Option<(int, int)> {
    if data.len() < 4 {
        None
    } else if tagged(data, 0, 0x4d, 0x54, 0x68, 0x64) {
        Some((0, data.len() as int))
    } else if tagged(data, 0, 0x52, 0x49, 0x46, 0x46) && data.len() >= 8 {
        let end = chunk_end(8, le32(data, 4), data.len() as int);
        if end - 8 >= 4 && tagged(data, 8, 0x52, 0x4d, 0x49, 0x44) {
            riff_data(data, 12, end)
        } else {
            None
        }
    } else {
        None
    }
}

/// Whether the header chunk whose data lies from `start` to `stop` can be
/// read as far as its timing: a format of 0, 1 or 2, a track count, and two
/// bytes of timing.
pub open spec fn timing_is_read(data: Seq<u8>, start: int, stop: int) -> bool {
    stop - start >= 6 && data[start] == 0 && data[start + 1] <= 2
}

/// Whether the first byte of a timing is the one that no decoder of frame
/// rates can take: a frame rate is written as its negative in eight bits,
/// and this byte writes -128, whose negative eight bits do not hold.
pub open spec fn rate_overflows(first: u8) -> bool {
    first == 0x80
}

/// Whether the first byte of a timing is one that a header can be read with:
/// ticks per beat, or one of the four frame rates.
pub open spec fn rate_is_known(first: u8) -> bool {
    first < 0x80 || first == 0xe8 || first == 0xe7 || first == 0xe3 || first == 0xe2
}

/// Whether the chunks of `data` from `at` to `end`, taken in order, come to
/// a header chunk whose timing begins with the byte of [`rate_overflows`].
///
/// A chunk has four bytes of name, four of length with the first byte
/// weighing most, and its data. Chunks of other names than `MThd` and `MTrk`
/// are passed over. The walk ends where a chunk cannot be read, where a
/// header cannot, and, while no header has been `seen`, at a track chunk.
pub open spec fn walk_overflows(data: Seq<u8>, at: int, end: int, seen: bool) -> bool
    decreases end - at,
{
    if end - at < 8 || at < 0 {
        false
    } else {
        let start = at + 8;
        let stop = chunk_end(start, be32(data, at + 4), end);
        if tagged(data, at, 0x4d, 0x54, 0x68, 0x64) {
            if !timing_is_read(data, start, stop) {
                false
            } else if rate_overflows(data[start + 4]) {
                true
            } else if rate_is_known(data[start + 4]) {
                walk_overflows(data, stop, end, true)
            } else {
                false
            }
        } else if tagged(data, at, 0x4d, 0x54, 0x72, 0x6b) {
            if seen {
                walk_overflows(data, stop, end, true)
            } else {
                false
            }
        } else {
            walk_overflows(data, stop, end, seen)
        }
    }
}

/// Whether the bytes `data` hold, where a decoder comes by it, a header
/// whose frame rate byte writes -128. Such bytes are no MIDI file, and they
/// are never handed to the decoder: it negates that byte in eight bits.
pub open spec fn rate_overflow(data: Seq<u8>) -> bool {
    match smf_span(data) {
        Some((start, end)) => walk_overflows(data, start, end, false),
        None => false,
    }
}

/// Calls `midly::Smf::parse`. It decodes or reports an error, and on the
/// same bytes it always gives the same; the error comes back as its text.
/// Left out are the bytes of [`rate_overflow`]: on its way through the chunks
/// the decoder reads the timing of every header chunk it comes by, and
/// negates in eight bits a first byte that has its top bit set.
#[verifier::external_body]
fn parse_smf(data: &[u8]) -> (r: Result<Smf<'_>, String>)
    requires
        !rate_overflow(data@),
    ensures
        match r {
            Ok(smf) => parsed(data@) == Some(smf_file(smf)),
            Err(_) => parsed(data@) is None,
        },
{
    Smf::parse(data).map_err(|e| e.to_string())
}

/// Reads `header.timing` of a `midly::Smf`: the ticks per beat of
/// `Timing::Metrical`, nothing for a timecode.
#[verifier::external_body]
fn smf_ticks_per_beat(smf: &Smf<'_>) -> (r: Option<u16>)
    ensures
        r == smf_file(*smf).ticks_per_beat,
{
    match smf.header.timing {
        Timing::Metrical(n) => Some(n.as_int()),
        Timing::Timecode(..) => None,
    }
}

/// Reads `header.format` of a `midly::Smf`, variant for variant.
#[verifier::external_body]
fn smf_format(smf: &Smf<'_>) -> (r: Format)
    ensures
        r == smf_file(*smf).format,
{
    match smf.header.format {
        nodi::midly::Format::SingleTrack => Format::SingleTrack,
        nodi::midly::Format::Parallel => Format::Parallel,
        nodi::midly::Format::Sequential => Format::Sequential,
    }
}

/// Number of tracks of a `midly::Smf`.
#[verifier::external_body]
fn smf_track_count(smf: &Smf<'_>) -> (n: usize)
    ensures
        n == smf_file(*smf).tracks.len(),
{
    smf.tracks.len()
}

/// Number of entries of track `t` of a `midly::Smf`.
#[verifier::external_body]
fn smf_track_len(smf: &Smf<'_>, t: usize) -> (n: usize)
    requires
        t < smf_file(*smf).tracks.len(),
    ensures
        n == smf_file(*smf).tracks[t as int].len(),
{
    smf.tracks[t].len()
}

/// Reads `delta` of entry `e` of track `t` of a `midly::Smf`.
#[verifier::external_body]
fn smf_delta(smf: &Smf<'_>, t: usize, e: usize) -> (delta: u32)
    requires
        t < smf_file(*smf).tracks.len(),
        e < smf_file(*smf).tracks[t as int].len(),
    ensures
        delta == smf_file(*smf).tracks[t as int][e as int].delta,
{
    smf.tracks[t][e].delta.as_int()
}

/// Reads the tempo of entry `e` of track `t` of a `midly::Smf`, where its
/// kind is the meta message `Tempo`.
#[verifier::external_body]
fn smf_tempo(smf: &Smf<'_>, t: usize, e: usize) -> (tempo: Option<u32>)
    requires
        t < smf_file(*smf).tracks.len(),
        e < smf_file(*smf).tracks[t as int].len(),
    ensures
        tempo == tempo_of(smf_file(*smf).tracks[t as int][e as int]),
{
    match smf.tracks[t][e].kind {
        TrackEventKind::Meta(MetaMessage::Tempo(n)) => Some(n.as_int()),
        _ => None,
    }
}

/// Reads entry `e` of track `t` of a `midly::Smf` where its kind is a
/// channel message for a key: channel, key and velocity, field for field.
/// `midly` keeps each of them in seven bits or fewer, so the key is in the
/// MIDI note range.
#[verifier::external_body]
fn smf_note(smf: &Smf<'_>, t: usize, e: usize) -> (note: Option<MidiEvent>)
    requires
        t < smf_file(*smf).tracks.len(),
        e < smf_file(*smf).tracks[t as int].len(),
    ensures
        note == note_of(smf_file(*smf).tracks[t as int][e as int]),
        note matches Some(event) ==> event.message.in_range(),
{
    let TrackEventKind::Midi { channel, message } = smf.tracks[t][e].kind else { return None };
    let message = match message {
        Wire::NoteOff { key, vel } => MidiMessage::NoteOff { key: key.as_int().into(), vel: vel.as_int() },
        Wire::NoteOn { key, vel } => MidiMessage::NoteOn { key: key.as_int().into(), vel: vel.as_int() },
        Wire::Aftertouch { key, vel } => MidiMessage::Aftertouch { key: key.as_int().into(), vel: vel.as_int() },
        _ => return None,
    };
    Some(MidiEvent { channel: channel.as_int(), message })
}

/// Reads entry `e` of track `t` of a `midly::Smf` where its kind is a
/// channel message without a key, field for field.
#[verifier::external_body]
fn smf_control(smf: &Smf<'_>, t: usize, e: usize) -> (control: Option<MidiEvent>)
    requires
        t < smf_file(*smf).tracks.len(),
        e < smf_file(*smf).tracks[t as int].len(),
    ensures
        control == control_of(smf_file(*smf).tracks[t as int][e as int]),
{
    let TrackEventKind::Midi { channel, message } = smf.tracks[t][e].kind else { return None };
    let message = match message {
        Wire::Controller { controller, value } => MidiMessage::Controller { controller: controller.as_int(), value: value.as_int() },
        Wire::ProgramChange { program } => MidiMessage::ProgramChange { program: program.as_int() },
        Wire::ChannelAftertouch { vel } => MidiMessage::ChannelAftertouch { vel: vel.as_int() },
        Wire::PitchBend { bend } => MidiMessage::PitchBend { bend: bend.0.as_int() },
        _ => return None,
    };
    Some(MidiEvent { channel: channel.as_int(), message })
}

/// Copies entry `e` of track `t` out of the decoded file.
fn entry_at(smf: &Smf<'_>, t: usize, e: usize) -> (entry: RawEvent)
    requires
        t < smf_file(*smf).tracks.len(),
        e < smf_file(*smf).tracks[t as int].len(),
    ensures
        entry == smf_file(*smf).tracks[t as int][e as int],
        match entry.event {
            Some(event) => event.in_range(),
            None => true,
        },
{
    let delta = smf_delta(smf, t, e);
    let event = match smf_tempo(smf, t, e) {
        Some(tempo) => Some(Event::Tempo(tempo)),
        None => match smf_note(smf, t, e) {
            Some(note) => Some(Event::Midi(note)),
            None => match smf_control(smf, t, e) {
                Some(control) => Some(Event::Midi(control)),
                None => None,
            },
        },
    };
    RawEvent { delta, event }
}

fn read_be32(data: &[u8], at: usize) -> (n: u32)
    requires
        at + 4 <= data@.len() <= usize::MAX,
    ensures
        n == be32(data@, at as int),
{
    (data[at] as u32) * 0x100_0000 + (data[at + 1] as u32) * 0x1_0000 + (data[at + 2] as u32)
        * 0x100 + data[at + 3] as u32
}

fn read_le32(data: &[u8], at: usize) -> (n: u32)
    requires
        at + 4 <= data@.len() <= usize::MAX,
    ensures
        n == le32(data@, at as int),
{
    (data[at + 3] as u32) * 0x100_0000 + (data[at + 2] as u32) * 0x1_0000 + (data[at + 1] as u32)
        * 0x100 + data[at] as u32
}

fn has_tag(data: &[u8], at: usize, a: u8, b: u8, c: u8, d: u8) -> (r: bool)
    requires
        at + 4 <= data@.len() <= usize::MAX,
    ensures
        r == tagged(data@, at as int, a, b, c, d),
{
    data[at] == a && data[at + 1] == b && data[at + 2] == c && data[at + 3] == d
}

fn end_of_chunk(start: usize, len: u32, end: usize) -> (stop: usize)
    requires
        start <= end,
    ensures
        stop == chunk_end(start as int, len as nat, end as int),
        start <= stop <= end,
{
    if len as usize <= end - start {
        start + len as usize
    } else {
        end
    }
}

/// Computes [`smf_span`].
fn find_span(data: &[u8]) -> (span: Option<(usize, usize)>)
    ensures
        match span {
            Some((start, end)) => smf_span(data@) == Some((start as int, end as int)) && start
                <= end <= data@.len() <= usize::MAX,
            None => smf_span(data@) is None,
        },
{
    let n = data.len();
    if n < 4 {
        return None;
    }
    if has_tag(data, 0, 0x4d, 0x54, 0x68, 0x64) {
        return Some((0, n));
    }
    if !has_tag(data, 0, 0x52, 0x49, 0x46, 0x46) || n < 8 {
        return None;
    }
    let end = end_of_chunk(8, read_le32(data, 4), n);
    if end - 8 < 4 || !has_tag(data, 8, 0x52, 0x4d, 0x49, 0x44) {
        return None;
    }
    let mut at: usize = 12;
    while end - at >= 8
        invariant
            12 <= at <= end <= data@.len() <= usize::MAX,
            smf_span(data@) == riff_data(data@, at as int, end as int),
        decreases end - at,
    {
        let len = read_le32(data, at + 4);
        let stop = end_of_chunk(at + 8, len, end);
        if has_tag(data, at, 0x64, 0x61, 0x74, 0x61) {
            return Some((at + 8, stop));
        }
        at = if len % 2 == 1 && stop < end {
            stop + 1
        } else {
            stop
        };
    }
    None
}

/// Computes [`rate_overflow`]: walks the chunks as a decoder does, and reads
/// of each header chunk no more than it takes to come to the timing.
pub fn has_rate_overflow(data: &[u8]) -> (r: bool)
    ensures
        r == rate_overflow(data@),
{
    let (start, end) = match find_span(data) {
        Some(span) => span,
        None => {
            return false;
        },
    };
    let mut at = start;
    let mut seen = false;
    while end - at >= 8
        invariant
            at <= end <= data@.len() <= usize::MAX,
            rate_overflow(data@) == walk_overflows(data@, at as int, end as int, seen),
        decreases end - at,
    {
        let from = at + 8;
        let stop = end_of_chunk(from, read_be32(data, at + 4), end);
        if has_tag(data, at, 0x4d, 0x54, 0x68, 0x64) {
            if stop - from < 6 || data[from] != 0 || data[from + 1] > 2 {
                return false;
            }
            let first = data[from + 4];
            if first == 0x80 {
                return true;
            }
            if !(first < 0x80 || first == 0xe8 || first == 0xe7 || first == 0xe3 || first == 0xe2) {
                return false;
            }
            seen = true;
        } else if has_tag(data, at, 0x4d, 0x54, 0x72, 0x6b) {
            if !seen {
                return false;
            }
        }
        at = stop;
    }
    false
}

impl MidiFile {
    /// Decodes the bytes of a standard MIDI file. `Ok` holds what the decoder
    /// made of them, entry for entry, and every key in it lies in the MIDI
    /// note range; `Err` holds the decoder's message where it gave up. Bytes
    /// with a frame rate that eight bits do not hold are refused before the
    /// decoder sees them: see [`rate_overflow`].
    pub fn parse(data: &[u8]) -> (r: Result<MidiFile, String>)
        ensures
            match r {
                Ok(file) => decoded(data@) == Some(file@) && raw_keys_in_range(file@.tracks),
                Err(_) => decoded(data@) is None,
            },
    {
        if has_rate_overflow(data) {
            return Err(String::from_str("invalid midi header: invalid smpte fps"));
        }
        let smf = match parse_smf(data) {
            Ok(smf) => smf,
            Err(message) => {
                return Err(message);
            },
        };
        let ghost held = smf_file(smf);
        let count = smf_track_count(&smf);
        let mut tracks: Vec<Vec<RawEvent>> = Vec::new();
        let mut t: usize = 0;
        while t < count
            invariant
                t <= count,
                held == smf_file(smf),
                decoded(data@) == Some(held),
                count == held.tracks.len(),
                tracks@.len() == t,
                forall|i: int| 0 <= i < t ==> (#[trigger] tracks@[i])@ == held.tracks[i],
                raw_keys_in_range(raw_view(tracks@)),
            decreases count - t,
        {
            let len = smf_track_len(&smf, t);
            let mut track: Vec<RawEvent> = Vec::new();
            let mut e: usize = 0;
            while e < len
                invariant
                    e <= len,
                    t < count,
                    held == smf_file(smf),
                    count == held.tracks.len(),
                    len == held.tracks[t as int].len(),
                    track@.len() == e,
                    forall|i: int| 0 <= i < e ==> #[trigger] track@[i] == held.tracks[t as int][i],
                    forall|i: int|
                        0 <= i < e ==> (match (#[trigger] track@[i]).event {
                            Some(event) => event.in_range(),
                            None => true,
                        }),
                decreases len - e,
            {
                track.push(entry_at(&smf, t, e));
                e = e + 1;
            }
            assert(track@ =~= held.tracks[t as int]);
            let ghost before = tracks@;
            let ghost copied = track@;
            tracks.push(track);
            proof {
                let now = raw_view(tracks@);
                assert forall|i: int, j: int| 0 <= i < now.len() && 0 <= j < now[i].len() implies (
                match (#[trigger] now[i][j]).event {
                    Some(event) => event.in_range(),
                    None => true,
                }) by {
                    if i < t {
                        assert(tracks@[i] == before[i]);
                        assert(raw_view(before)[i][j] == now[i][j]);
                    } else {
                        assert(now[i][j] == copied[j]);
                    }
                }
            }
            t = t + 1;
        }
        let file = MidiFile {
            ticks_per_beat: smf_ticks_per_beat(&smf),
            format: smf_format(&smf),
            tracks,
        };
        proof {
            assert(file@.tracks =~= held.tracks);
            assert(file@ == held);
        }
        Ok(file)
    }
}

} // verus!
