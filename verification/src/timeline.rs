//! The timeline of a track: one moment for each tick, in order.

use vstd::prelude::*;
use crate::event::{lemma_event_round_trip, Event};

verus! {

/// Longest timeline that can be held: tick counts are kept in 32 bits.
pub const MAX_TICKS: usize = 0xffff_ffff;

/// One entry of a sub-track as a file holds it: after `delta` ticks since the
/// entry before it comes `event`, or nothing that a timeline keeps.
#[derive(Clone, Copy, Debug, PartialEq, Eq)]
pub struct RawEvent {
    pub delta: u32,
    pub event: Option<Event>,
}

/// The sub-tracks of `tracks` as sequences.
pub open spec fn raw_view(tracks: Seq<Vec<RawEvent>>) -> Seq<Seq<RawEvent>> {
    Seq::new(tracks.len(), |i: int| tracks[i]@)
}

/// The tick at which entry `upto - 1` of `track` falls: the deltas of the
/// first `upto` entries, added up.
pub open spec fn ticks_before(track: Seq<RawEvent>, upto: int) -> nat
    decreases upto,
{
    if upto <= 0 {
        0
    } else {
        ticks_before(track, upto - 1) + track[upto - 1].delta as nat
    }
}

/// The length of `track` in ticks: the tick of its last entry, and that tick
/// itself.
pub open spec fn track_ticks(track: Seq<RawEvent>) -> nat {
    ticks_before(track, track.len() as int) + 1
}

/// The events among the first `upto` entries of `track` that fall at tick
/// `at`, in the order of the entries.
pub open spec fn events_at(track: Seq<RawEvent>, upto: int, at: int) -> Seq<Event>
    decreases upto,
{
    if upto <= 0 {
        Seq::empty()
    } else {
        let earlier = events_at(track, upto - 1, at);
        match track[upto - 1].event {
            Some(e) => if ticks_before(track, upto) == at {
                earlier.push(e)
            } else {
                earlier
            },
            None => earlier,
        }
    }
}

/// The timeline of one sub-track.
pub open spec fn single(track: Seq<RawEvent>) -> Seq<Seq<Event>> {
    Seq::new(track_ticks(track), |at: int| events_at(track, track.len() as int, at))
}

/// The lengths in ticks of the first `upto` sub-tracks, added up.
pub open spec fn sum_ticks(tracks: Seq<Seq<RawEvent>>, upto: int) -> nat
    decreases upto,
{
    if upto <= 0 {
        0
    } else {
        sum_ticks(tracks, upto - 1) + track_ticks(tracks[upto - 1])
    }
}

/// The greatest length in ticks among the first `upto` sub-tracks; zero
/// where there is none.
pub open spec fn max_ticks(tracks: Seq<Seq<RawEvent>>, upto: int) -> nat
    decreases upto,
{
    if upto <= 0 {
        0
    } else {
        let before = max_ticks(tracks, upto - 1);
        let last = track_ticks(tracks[upto - 1]);
        if last > before {
            last
        } else {
            before
        }
    }
}

/// The first `upto` sub-tracks one after the other: each begins at the tick
/// after the last tick of the one before it.
pub open spec fn sequential_upto(tracks: Seq<Seq<RawEvent>>, upto: int) -> Seq<Seq<Event>>
    decreases upto,
{
    if upto <= 0 {
        Seq::empty()
    } else {
        sequential_upto(tracks, upto - 1) + single(tracks[upto - 1])
    }
}

/// The sub-tracks one after the other.
pub open spec fn sequential(tracks: Seq<Seq<RawEvent>>) -> Seq<Seq<Event>> {
    sequential_upto(tracks, tracks.len() as int)
}

/// The events that the first `upto` sub-tracks hold at tick `at`: those of
/// the first sub-track, then those of the second, and so on.
pub open spec fn merged_at(tracks: Seq<Seq<RawEvent>>, upto: int, at: int) -> Seq<Event>
    decreases upto,
{
    if upto <= 0 {
        Seq::empty()
    } else {
        merged_at(tracks, upto - 1, at) + events_at(
            tracks[upto - 1],
            tracks[upto - 1].len() as int,
            at,
        )
    }
}

/// The sub-tracks side by side: all begin at tick 0, and the timeline is as
/// long as the longest of them.
pub open spec fn parallel(tracks: Seq<Seq<RawEvent>>) -> Seq<Seq<Event>> {
    Seq::new(
        max_ticks(tracks, tracks.len() as int),
        |at: int| merged_at(tracks, tracks.len() as int, at),
    )
}

/// Every moment of `timeline` with each of its events transposed.
pub open spec fn transposed(timeline: Seq<Seq<Event>>, semitones: i8, clamp_to_range: bool) -> Seq<
    Seq<Event>,
> {
    Seq::new(
        timeline.len(),
        |i: int|
            Seq::new(
                timeline[i].len(),
                |j: int| timeline[i][j].transposed(semitones, clamp_to_range),
            ),
    )
}

/// Whether every key in `timeline` lies in the MIDI note range.
pub open spec fn keys_in_range(timeline: Seq<Seq<Event>>) -> bool {
    forall|i: int, j: int|
        0 <= i < timeline.len() && 0 <= j < timeline[i].len() ==> (#[trigger] timeline[i][j]).in_range()
}

/// Whether every key in the sub-tracks lies in the MIDI note range.
pub open spec fn raw_keys_in_range(tracks: Seq<Seq<RawEvent>>) -> bool {
    forall|t: int, e: int|
        0 <= t < tracks.len() && 0 <= e < tracks[t].len() ==> (match (#[trigger] tracks[t][e]).event {
            Some(event) => event.in_range(),
            None => true,
        })
}

/// A sequence of moments, one for each tick. Moment `i` holds the events that
/// fall exactly `i` ticks after the start, in the order in which they are
/// delivered; most moments are empty.
#[derive(Debug)]
pub struct Timeline {
    moments: Vec<Vec<Event>>,
}

impl View for Timeline {
    type V = Seq<Seq<Event>>;

    closed spec fn view(&self) -> Seq<Seq<Event>> {
        Seq::new(self.moments@.len(), |i: int| self.moments@[i]@)
    }
}

/// The moments of `moments` as sequences.
pub open spec fn moments_view(moments: Seq<Vec<Event>>) -> Seq<Seq<Event>> {
    Seq::new(moments.len(), |i: int| moments[i]@)
}

impl Timeline {
    #[verifier::type_invariant]
    spec fn within_limit(self) -> bool {
        self.moments@.len() <= MAX_TICKS
    }

    /// A timeline without any tick.
    pub fn new() -> (timeline: Timeline)
        ensures
            timeline@ == Seq::<Seq<Event>>::empty(),
    {
        let timeline = Timeline { moments: Vec::new() };
        assert(timeline@ =~= Seq::<Seq<Event>>::empty());
        timeline
    }

    /// The timeline that holds `moments`, or `None` where there are more than
    /// `MAX_TICKS` of them.
    pub fn from_moments(moments: Vec<Vec<Event>>) -> (r: Option<Timeline>)
        ensures
            match r {
                Some(timeline) => timeline@ == moments_view(moments@),
                None => moments@.len() > MAX_TICKS,
            },
            moments@.len() <= MAX_TICKS ==> r is Some,
    {
        if moments.len() > MAX_TICKS {
            None
        } else {
            let ghost given = moments@;
            let timeline = Timeline { moments };
            assert(timeline@ =~= moments_view(given));
            Some(timeline)
        }
    }

    /// Number of ticks.
    pub fn len(&self) -> (n: usize)
        ensures
            n == self@.len(),
            n <= MAX_TICKS,
    {
        proof {
            use_type_invariant(self);
        }
        self.moments.len()
    }

    /// All moments, in order.
    pub fn moments(&self) -> (moments: &Vec<Vec<Event>>)
        ensures
            moments_view(moments@) == self@,
    {
        assert(moments_view(self.moments@) =~= self@);
        &self.moments
    }

    /// The events of tick `at`.
    pub fn moment(&self, at: usize) -> (events: &Vec<Event>)
        requires
            at < self@.len(),
        ensures
            events@ == self@[at as int],
    {
        &self.moments[at]
    }
    /// The sub-tracks of `tracks` laid one after the other, or `None` where
    /// that takes more than `MAX_TICKS` ticks.
    pub fn sequential(tracks: &Vec<Vec<RawEvent>>) -> (r: Option<Timeline>)
        ensures
            match r {
                Some(timeline) => timeline@ == sequential(raw_view(tracks@)),
                None => true,
            },
            r is Some <==> sum_ticks(raw_view(tracks@), tracks@.len() as int) <= MAX_TICKS,
    {
        let ghost raw = raw_view(tracks@);
        let mut moments: Vec<Vec<Event>> = Vec::new();
        let mut t: usize = 0;
        while t < tracks.len()
            invariant
                t <= tracks@.len(),
                raw == raw_view(tracks@),
                moments_view(moments@) == sequential_upto(raw, t as int),
                moments@.len() == sum_ticks(raw, t as int),
                moments@.len() <= MAX_TICKS,
            decreases tracks@.len() - t,
        {
            let track = &tracks[t];
            assert(raw[t as int] == track@);
            let ticks = match measure(track) {
                Some(ticks) => ticks,
                None => {
                    proof {
                        lemma_sum_ticks_grows(raw, t + 1, tracks@.len() as int);
                    }
                    return None;
                },
            };
            if ticks > MAX_TICKS - moments.len() {
                proof {
                    lemma_sum_ticks_grows(raw, t + 1, tracks@.len() as int);
                }
                return None;
            }
            let base = moments.len();
            let ghost before = moments@;
            extend_with_empty(&mut moments, ticks);
            let ghost blank = moments@;
            lay_out(&mut moments, base, track);
            proof {
                let built = moments_view(moments@);
                let expected = sequential_upto(raw, t as int) + single(track@);
                assert(built.len() == expected.len());
                assert forall|i: int| 0 <= i < built.len() implies built[i] == expected[i] by {
                    if i < base {
                        assert(moments@[i] == blank[i]);
                        assert(blank[i] == before[i]);
                        assert(moments_view(before)[i] == before[i]@);
                    } else {
                        let at = i - base;
                        assert(moments@[base + at]@ == blank[base + at]@ + events_at(
                            track@,
                            track@.len() as int,
                            at,
                        ));
                        assert(blank[i]@ =~= Seq::<Event>::empty());
                        assert(moments@[i]@ =~= events_at(track@, track@.len() as int, at));
                    }
                }
                assert(built =~= expected);
            }
            t = t + 1;
        }
        let ghost laid = moments@;
        let timeline = Timeline { moments };
        assert(timeline@ =~= moments_view(laid));
        Some(timeline)
    }

    /// The sub-tracks of `tracks` laid side by side, or `None` where the
    /// longest of them takes more than `MAX_TICKS` ticks.
    pub fn parallel(tracks: &Vec<Vec<RawEvent>>) -> (r: Option<Timeline>)
        ensures
            match r {
                Some(timeline) => timeline@ == parallel(raw_view(tracks@)),
                None => true,
            },
            r is Some <==> max_ticks(raw_view(tracks@), tracks@.len() as int) <= MAX_TICKS,
    {
        let ghost raw = raw_view(tracks@);
        let mut longest: usize = 0;
        let mut t: usize = 0;
        while t < tracks.len()
            invariant
                t <= tracks@.len(),
                raw == raw_view(tracks@),
                longest == max_ticks(raw, t as int),
                longest <= MAX_TICKS,
            decreases tracks@.len() - t,
        {
            assert(raw[t as int] == tracks@[t as int]@);
            match measure(&tracks[t]) {
                Some(ticks) => {
                    if ticks > longest {
                        longest = ticks;
                    }
                },
                None => {
                    proof {
                        lemma_max_ticks_grows(raw, t + 1, tracks@.len() as int);
                    }
                    return None;
                },
            }
            t = t + 1;
        }
        let mut moments: Vec<Vec<Event>> = Vec::new();
        extend_with_empty(&mut moments, longest);
        let mut t: usize = 0;
        while t < tracks.len()
            invariant
                t <= tracks@.len(),
                raw == raw_view(tracks@),
                longest == max_ticks(raw, tracks@.len() as int),
                moments@.len() == longest,
                longest <= MAX_TICKS,
                forall|at: int|
                    0 <= at < longest ==> (#[trigger] moments@[at])@ == merged_at(raw, t as int, at),
            decreases tracks@.len() - t,
        {
            let track = &tracks[t];
            let ghost before = moments@;
            proof {
                assert(raw[t as int] == track@);
                lemma_max_ticks_grows(raw, t + 1, tracks@.len() as int);
            }
            lay_out(&mut moments, 0, track);
            proof {
                assert forall|at: int| 0 <= at < longest implies (#[trigger] moments@[at])@
                    == merged_at(raw, t + 1, at) by {
                    if at < track_ticks(track@) {
                        assert(moments@[0 + at]@ == before[0 + at]@ + events_at(
                            track@,
                            track@.len() as int,
                            at,
                        ));
                    } else {
                        lemma_no_event_past_end(track@, track@.len() as int, at);
                        assert(moments@[at] == before[at]);
                        assert(before[at]@ + Seq::<Event>::empty() =~= before[at]@);
                    }
                }
            }
            t = t + 1;
        }
        let ghost laid = moments@;
        let timeline = Timeline { moments };
        assert(timeline@ =~= parallel(raw));
        Some(timeline)
    }

    /// The timeline with every key moved by `semitones`: see
    /// [`Event::transposed`]. No event is added, dropped or moved to another
    /// tick.
    pub fn transposed(&self, semitones: i8, clamp_to_range: bool) -> (r: Timeline)
        ensures
            r@ == transposed(self@, semitones, clamp_to_range),
    {
        proof {
            use_type_invariant(self);
        }
        let mut moments: Vec<Vec<Event>> = Vec::new();
        let mut i: usize = 0;
        while i < self.moments.len()
            invariant
                i <= self.moments@.len(),
                self.moments@.len() <= MAX_TICKS,
                moments@.len() == i,
                forall|k: int|
                    0 <= k < i ==> (#[trigger] moments@[k])@ == transposed(
                        self@,
                        semitones,
                        clamp_to_range,
                    )[k],
            decreases self.moments@.len() - i,
        {
            let moment = &self.moments[i];
            let mut shifted: Vec<Event> = Vec::new();
            let mut j: usize = 0;
            while j < moment.len()
                invariant
                    j <= moment@.len(),
                    shifted@.len() == j,
                    forall|k: int|
                        0 <= k < j ==> #[trigger] shifted@[k] == moment@[k].transposed(
                            semitones,
                            clamp_to_range,
                        ),
                decreases moment@.len() - j,
            {
                shifted.push(moment[j].transpose(semitones, clamp_to_range));
                j = j + 1;
            }
            proof {
                assert(self@[i as int] == moment@);
                assert(shifted@ =~= transposed(self@, semitones, clamp_to_range)[i as int]);
            }
            moments.push(shifted);
            i = i + 1;
        }
        let ghost laid = moments@;
        let timeline = Timeline { moments };
        assert(timeline@ =~= transposed(self@, semitones, clamp_to_range));
        timeline
    }

    /// Moves every key of the timeline by `semitones`, in place.
    pub fn transpose(&mut self, semitones: i8, clamp_to_range: bool)
        ensures
            final(self)@ == transposed(old(self)@, semitones, clamp_to_range),
    {
        let next = self.transposed(semitones, clamp_to_range);
        *self = next;
    }
}

/// The length of `track` in ticks, or `None` where it is over `MAX_TICKS`.
fn measure(track: &Vec<RawEvent>) -> (r: Option<usize>)
    ensures
        match r {
            Some(ticks) => ticks == track_ticks(track@) && ticks <= MAX_TICKS,
            None => track_ticks(track@) > MAX_TICKS,
        },
{
    let mut last: u64 = 0;
    let mut k: usize = 0;
    while k < track.len()
        invariant
            k <= track@.len(),
            last == ticks_before(track@, k as int),
            last < MAX_TICKS,
        decreases track@.len() - k,
    {
        let next: u64 = last + track[k].delta as u64;
        if next >= MAX_TICKS as u64 {
            proof {
                lemma_ticks_before_grows(track@, k + 1, track@.len() as int);
            }
            return None;
        }
        last = next;
        k = k + 1;
    }
    Some((last + 1) as usize)
}

/// Adds `count` empty moments at the end of `moments`.
fn extend_with_empty(moments: &mut Vec<Vec<Event>>, count: usize)
    requires
        old(moments)@.len() + count <= MAX_TICKS,
    ensures
        final(moments)@.len() == old(moments)@.len() + count,
        forall|i: int| 0 <= i < old(moments)@.len() ==> final(moments)@[i] == old(moments)@[i],
        forall|i: int|
            old(moments)@.len() <= i < final(moments)@.len() ==> (#[trigger] final(moments)@[i])@.len()
                == 0,
{
    let mut added: usize = 0;
    while added < count
        invariant
            added <= count,
            old(moments)@.len() + count <= MAX_TICKS,
            moments@.len() == old(moments)@.len() + added,
            forall|i: int| 0 <= i < old(moments)@.len() ==> moments@[i] == old(moments)@[i],
            forall|i: int|
                old(moments)@.len() <= i < moments@.len() ==> (#[trigger] moments@[i])@.len() == 0,
        decreases count - added,
    {
        moments.push(Vec::new());
        added = added + 1;
    }
}

/// Appends each event of `track` to the moment of its tick, where tick 0 of
/// the track is moment `base`.
fn lay_out(moments: &mut Vec<Vec<Event>>, base: usize, track: &Vec<RawEvent>)
    requires
        base + track_ticks(track@) <= old(moments)@.len(),
        old(moments)@.len() <= MAX_TICKS,
    ensures
        final(moments)@.len() == old(moments)@.len(),
        forall|at: int|
            0 <= at < track_ticks(track@) ==> (#[trigger] final(moments)@[base + at])@ == old(
                moments,
            )@[base + at]@ + events_at(track@, track@.len() as int, at),
        forall|i: int|
            0 <= i < old(moments)@.len() && !(base <= i < base + track_ticks(track@))
                ==> final(moments)@[i] == old(moments)@[i],
{
    let mut tick: usize = 0;
    let mut k: usize = 0;
    proof {
        assert forall|at: int| 0 <= at < track_ticks(track@) implies (#[trigger] moments@[base
            + at])@ == old(moments)@[base + at]@ + events_at(track@, 0, at) by {
            assert(old(moments)@[base + at]@ + Seq::<Event>::empty() =~= old(moments)@[base
                + at]@);
        }
    }
    while k < track.len()
        invariant
            k <= track@.len(),
            base + track_ticks(track@) <= old(moments)@.len(),
            old(moments)@.len() <= MAX_TICKS,
            moments@.len() == old(moments)@.len(),
            tick == ticks_before(track@, k as int),
            forall|at: int|
                0 <= at < track_ticks(track@) ==> (#[trigger] moments@[base + at])@ == old(
                    moments,
                )@[base + at]@ + events_at(track@, k as int, at),
            forall|i: int|
                0 <= i < old(moments)@.len() && !(base <= i < base + track_ticks(track@))
                    ==> moments@[i] == old(moments)@[i],
        decreases track@.len() - k,
    {
        proof {
            lemma_ticks_before_grows(track@, k + 1, track@.len() as int);
        }
        let entry = track[k];
        tick = tick + entry.delta as usize;
        let ghost before = moments@;
        match entry.event {
            Some(e) => {
                moments[base + tick].push(e);
                proof {
                    assert forall|at: int| 0 <= at < track_ticks(track@) implies (
                    #[trigger] moments@[base + at])@ == old(moments)@[base + at]@ + events_at(
                        track@,
                        k + 1,
                        at,
                    ) by {
                        assert(before[base + at]@ == old(moments)@[base + at]@ + events_at(
                            track@,
                            k as int,
                            at,
                        ));
                        if at == tick {
                            assert(moments@[base + at]@ =~= old(moments)@[base + at]@
                                + events_at(track@, k as int, at).push(e));
                        } else {
                            assert(moments@[base + at] == before[base + at]);
                        }
                    }
                }
            },
            None => {},
        }
        k = k + 1;
    }
}

/// The tick of an entry is never before that of an earlier entry.
proof fn lemma_ticks_before_grows(track: Seq<RawEvent>, from: int, to: int)
    requires
        0 <= from <= to,
    ensures
        ticks_before(track, from) <= ticks_before(track, to),
    decreases to - from,
{
    if from < to {
        lemma_ticks_before_grows(track, from, to - 1);
    }
}

/// No event falls at a tick after that of the last entry: past its own
/// length a sub-track adds nothing to a tick.
pub proof fn lemma_no_event_past_end(track: Seq<RawEvent>, upto: int, at: int)
    requires
        0 <= upto <= track.len(),
        at >= track_ticks(track),
    ensures
        events_at(track, upto, at) =~= Seq::<Event>::empty(),
    decreases upto,
{
    if upto > 0 {
        lemma_no_event_past_end(track, upto - 1, at);
        lemma_ticks_before_grows(track, upto, track.len() as int);
    }
}

proof fn lemma_sum_ticks_grows(tracks: Seq<Seq<RawEvent>>, from: int, to: int)
    requires
        0 <= from <= to,
    ensures
        sum_ticks(tracks, from) <= sum_ticks(tracks, to),
    decreases to - from,
{
    if from < to {
        lemma_sum_ticks_grows(tracks, from, to - 1);
    }
}

proof fn lemma_max_ticks_grows(tracks: Seq<Seq<RawEvent>>, from: int, to: int)
    requires
        0 <= from <= to,
    ensures
        max_ticks(tracks, from) <= max_ticks(tracks, to),
    decreases to - from,
{
    if from < to {
        lemma_max_ticks_grows(tracks, from, to - 1);
    }
}

/// Laid one after the other, sub-tracks give a timeline as long as their
/// lengths in ticks added up.
pub proof fn lemma_sequential_len(tracks: Seq<Seq<RawEvent>>)
    ensures
        sequential(tracks).len() == sum_ticks(tracks, tracks.len() as int),
{
    lemma_sequential_upto_len(tracks, tracks.len() as int);
}

proof fn lemma_sequential_upto_len(tracks: Seq<Seq<RawEvent>>, upto: int)
    ensures
        sequential_upto(tracks, upto).len() == sum_ticks(tracks, upto),
    decreases upto,
{
    if upto > 0 {
        lemma_sequential_upto_len(tracks, upto - 1);
    }
}

/// Laid side by side, sub-tracks give a timeline as long as the longest of
/// them: no sub-track is longer, and one of them is that long unless there is
/// none.
pub proof fn lemma_parallel_len(tracks: Seq<Seq<RawEvent>>)
    ensures
        parallel(tracks).len() == max_ticks(tracks, tracks.len() as int),
        forall|i: int| 0 <= i < tracks.len() ==> track_ticks(#[trigger] tracks[i]) <= parallel(tracks).len(),
        tracks.len() > 0 ==> exists|i: int|
            0 <= i < tracks.len() && track_ticks(#[trigger] tracks[i]) == parallel(tracks).len(),
        tracks.len() == 0 ==> parallel(tracks).len() == 0,
{
    lemma_max_ticks_is_greatest(tracks, tracks.len() as int);
}

proof fn lemma_max_ticks_is_greatest(tracks: Seq<Seq<RawEvent>>, upto: int)
    requires
        0 <= upto <= tracks.len(),
    ensures
        forall|i: int| 0 <= i < upto ==> track_ticks(#[trigger] tracks[i]) <= max_ticks(tracks, upto),
        upto > 0 ==> exists|i: int|
            0 <= i < upto && track_ticks(#[trigger] tracks[i]) == max_ticks(tracks, upto),
    decreases upto,
{
    if upto > 0 {
        lemma_max_ticks_is_greatest(tracks, upto - 1);
        if upto == 1 || track_ticks(tracks[upto - 1]) > max_ticks(tracks, upto - 1) {
            assert(track_ticks(tracks[upto - 1]) == max_ticks(tracks, upto));
        } else {
            let i = choose|i: int|
                0 <= i < upto - 1 && track_ticks(#[trigger] tracks[i]) == max_ticks(
                    tracks,
                    upto - 1,
                );
            assert(track_ticks(tracks[i]) == max_ticks(tracks, upto));
        }
    }
}

/// Laid one after the other, each sub-track keeps its own moments, in order
/// and unchanged, from the tick at which the sub-tracks before it end: tick
/// `at` of sub-track `k` is tick `at` past the lengths of those before it.
pub proof fn lemma_sequential_places_tracks(tracks: Seq<Seq<RawEvent>>, k: int, at: int)
    requires
        0 <= k < tracks.len(),
        0 <= at < track_ticks(tracks[k]),
    ensures
        sum_ticks(tracks, k) + at < sequential(tracks).len(),
        sequential(tracks)[sum_ticks(tracks, k) + at] == single(tracks[k])[at],
        single(tracks[k])[at] == events_at(tracks[k], tracks[k].len() as int, at),
{
    lemma_sequential_upto_places(tracks, tracks.len() as int, k, at);
}

proof fn lemma_sequential_upto_places(tracks: Seq<Seq<RawEvent>>, upto: int, k: int, at: int)
    requires
        0 <= k < upto <= tracks.len(),
        0 <= at < track_ticks(tracks[k]),
    ensures
        sum_ticks(tracks, k) + at < sequential_upto(tracks, upto).len(),
        sequential_upto(tracks, upto)[sum_ticks(tracks, k) + at] == single(tracks[k])[at],
    decreases upto,
{
    lemma_sequential_upto_len(tracks, upto - 1);
    lemma_sequential_upto_len(tracks, upto);
    if k < upto - 1 {
        lemma_sequential_upto_places(tracks, upto - 1, k, at);
    } else {
        assert(sequential_upto(tracks, upto)[sum_ticks(tracks, k) + at] == single(tracks[k])[at]);
    }
}

/// Laid side by side, the sub-tracks share their ticks: each tick holds the
/// events that the first sub-track has there, then those of the second, and
/// so on, where [`merged_at`] adds them up.
pub proof fn lemma_parallel_merges_ticks(tracks: Seq<Seq<RawEvent>>, at: int)
    requires
        0 <= at < parallel(tracks).len(),
    ensures
        parallel(tracks)[at] == merged_at(tracks, tracks.len() as int, at),
{
}

/// How many of the first `upto` entries of `track` hold an event.
pub open spec fn kept(track: Seq<RawEvent>, upto: int) -> nat
    decreases upto,
{
    if upto <= 0 {
        0
    } else {
        kept(track, upto - 1) + if track[upto - 1].event is Some {
            1nat
        } else {
            0nat
        }
    }
}

/// How many events the first `upto` sub-tracks hold, all in all.
pub open spec fn kept_in_all(tracks: Seq<Seq<RawEvent>>, upto: int) -> nat
    decreases upto,
{
    if upto <= 0 {
        0
    } else {
        kept_in_all(tracks, upto - 1) + kept(tracks[upto - 1], tracks[upto - 1].len() as int)
    }
}

/// How many events the first `upto` moments of `timeline` hold.
pub open spec fn held(timeline: Seq<Seq<Event>>, upto: int) -> nat
    decreases upto,
{
    if upto <= 0 {
        0
    } else {
        held(timeline, upto - 1) + timeline[upto - 1].len()
    }
}

/// How many of the events of the first `upto` entries of `track` fall
/// before tick `ticks`.
spec fn laid(track: Seq<RawEvent>, upto: int, ticks: int) -> nat
    decreases ticks,
{
    if ticks <= 0 {
        0
    } else {
        laid(track, upto, ticks - 1) + events_at(track, upto, ticks - 1).len()
    }
}

/// How many of the events of the first `upto` sub-tracks fall before tick
/// `ticks`.
spec fn merged_laid(tracks: Seq<Seq<RawEvent>>, upto: int, ticks: int) -> nat
    decreases ticks,
{
    if ticks <= 0 {
        0
    } else {
        merged_laid(tracks, upto, ticks - 1) + merged_at(tracks, upto, ticks - 1).len()
    }
}

proof fn lemma_laid_grows_by_entry(track: Seq<RawEvent>, upto: int, ticks: int)
    requires
        0 < upto <= track.len(),
        0 <= ticks,
    ensures
        laid(track, upto, ticks) == laid(track, upto - 1, ticks) + if track[upto - 1].event
            is Some && ticks_before(track, upto) < ticks {
            1nat
        } else {
            0nat
        },
    decreases ticks,
{
    if ticks > 0 {
        lemma_laid_grows_by_entry(track, upto, ticks - 1);
    }
}

proof fn lemma_laid_is_kept(track: Seq<RawEvent>, upto: int, ticks: int)
    requires
        0 <= upto <= track.len(),
        ticks >= track_ticks(track),
    ensures
        laid(track, upto, ticks) == kept(track, upto),
    decreases upto,
{
    if upto > 0 {
        lemma_laid_is_kept(track, upto - 1, ticks);
        lemma_laid_grows_by_entry(track, upto, ticks);
        lemma_ticks_before_grows(track, upto, track.len() as int);
    } else {
        lemma_nothing_laid(track, ticks);
    }
}

proof fn lemma_nothing_laid(track: Seq<RawEvent>, ticks: int)
    ensures
        laid(track, 0, ticks) == 0,
    decreases ticks,
{
    if ticks > 0 {
        lemma_nothing_laid(track, ticks - 1);
    }
}

proof fn lemma_single_holds_laid(track: Seq<RawEvent>, upto: int)
    requires
        0 <= upto <= track_ticks(track),
    ensures
        held(single(track), upto) == laid(track, track.len() as int, upto),
    decreases upto,
{
    if upto > 0 {
        lemma_single_holds_laid(track, upto - 1);
    }
}

proof fn lemma_held_appends(first: Seq<Seq<Event>>, second: Seq<Seq<Event>>, upto: int)
    requires
        0 <= upto <= second.len(),
    ensures
        held(first + second, first.len() + upto) == held(first, first.len() as int) + held(
            second,
            upto,
        ),
    decreases upto,
{
    if upto > 0 {
        lemma_held_appends(first, second, upto - 1);
        assert((first + second)[first.len() + upto - 1] == second[upto - 1]);
    } else {
        lemma_held_of_prefix(first, second, first.len() as int);
    }
}

proof fn lemma_held_of_prefix(first: Seq<Seq<Event>>, second: Seq<Seq<Event>>, upto: int)
    requires
        0 <= upto <= first.len(),
    ensures
        held(first + second, upto) == held(first, upto),
    decreases upto,
{
    if upto > 0 {
        lemma_held_of_prefix(first, second, upto - 1);
        assert((first + second)[upto - 1] == first[upto - 1]);
    }
}

proof fn lemma_sequential_upto_keeps(tracks: Seq<Seq<RawEvent>>, upto: int)
    requires
        0 <= upto <= tracks.len(),
    ensures
        held(sequential_upto(tracks, upto), sequential_upto(tracks, upto).len() as int)
            == kept_in_all(tracks, upto),
    decreases upto,
{
    if upto > 0 {
        let track = tracks[upto - 1];
        lemma_sequential_upto_keeps(tracks, upto - 1);
        lemma_held_appends(
            sequential_upto(tracks, upto - 1),
            single(track),
            single(track).len() as int,
        );
        lemma_single_holds_laid(track, track_ticks(track) as int);
        lemma_laid_is_kept(track, track.len() as int, track_ticks(track) as int);
    }
}

proof fn lemma_merged_laid_grows_by_track(tracks: Seq<Seq<RawEvent>>, upto: int, ticks: int)
    requires
        0 < upto <= tracks.len(),
        0 <= ticks,
    ensures
        merged_laid(tracks, upto, ticks) == merged_laid(tracks, upto - 1, ticks) + laid(
            tracks[upto - 1],
            tracks[upto - 1].len() as int,
            ticks,
        ),
    decreases ticks,
{
    if ticks > 0 {
        lemma_merged_laid_grows_by_track(tracks, upto, ticks - 1);
    }
}

proof fn lemma_nothing_merged(tracks: Seq<Seq<RawEvent>>, ticks: int)
    ensures
        merged_laid(tracks, 0, ticks) == 0,
    decreases ticks,
{
    if ticks > 0 {
        lemma_nothing_merged(tracks, ticks - 1);
    }
}

proof fn lemma_merged_laid_is_kept(tracks: Seq<Seq<RawEvent>>, upto: int, ticks: int)
    requires
        0 <= upto <= tracks.len(),
        ticks >= max_ticks(tracks, tracks.len() as int),
    ensures
        merged_laid(tracks, upto, ticks) == kept_in_all(tracks, upto),
    decreases upto,
{
    if upto > 0 {
        lemma_merged_laid_is_kept(tracks, upto - 1, ticks);
        lemma_merged_laid_grows_by_track(tracks, upto, ticks);
        lemma_max_ticks_is_greatest(tracks, tracks.len() as int);
        assert(track_ticks(tracks[upto - 1]) <= ticks);
        lemma_laid_is_kept(tracks[upto - 1], tracks[upto - 1].len() as int, ticks);
    } else {
        lemma_nothing_merged(tracks, ticks);
    }
}

proof fn lemma_parallel_holds_merged(tracks: Seq<Seq<RawEvent>>, upto: int)
    requires
        0 <= upto <= parallel(tracks).len(),
    ensures
        held(parallel(tracks), upto) == merged_laid(tracks, tracks.len() as int, upto),
    decreases upto,
{
    if upto > 0 {
        lemma_parallel_holds_merged(tracks, upto - 1);
    }
}

/// Neither layout loses an event or makes one up: the timeline holds as
/// many events as the sub-tracks do, all in all.
pub proof fn lemma_layouts_keep_every_event(tracks: Seq<Seq<RawEvent>>)
    ensures
        held(sequential(tracks), sequential(tracks).len() as int) == kept_in_all(
            tracks,
            tracks.len() as int,
        ),
        held(parallel(tracks), parallel(tracks).len() as int) == kept_in_all(
            tracks,
            tracks.len() as int,
        ),
{
    lemma_sequential_upto_keeps(tracks, tracks.len() as int);
    lemma_parallel_holds_merged(tracks, parallel(tracks).len() as int);
    lemma_merged_laid_is_kept(tracks, tracks.len() as int, parallel(tracks).len() as int);
}

/// One sub-track alone gives the same timeline laid out either way: its own.
pub proof fn lemma_one_track_either_way(track: Seq<RawEvent>)
    ensures
        sequential(seq![track]) == single(track),
        parallel(seq![track]) == single(track),
{
    let tracks = seq![track];
    assert(sequential_upto(tracks, 0) =~= Seq::<Seq<Event>>::empty());
    assert(sequential(tracks) =~= single(track));
    let merged = parallel(tracks);
    assert(max_ticks(tracks, 0) == 0);
    assert(merged.len() == track_ticks(track));
    assert forall|at: int| 0 <= at < merged.len() implies merged[at] == single(track)[at] by {
        assert(merged_at(tracks, 0, at) =~= Seq::<Event>::empty());
        assert(merged_at(tracks, 1, at) =~= events_at(track, track.len() as int, at));
    }
    assert(merged =~= single(track));
}

/// Transposing by `up` and then by `down`, where the two cancel and nothing
/// is clamped, restores every timeline whose keys lie in the MIDI note range.
pub proof fn lemma_transpose_round_trip(timeline: Seq<Seq<Event>>, up: i8, down: i8)
    requires
        keys_in_range(timeline),
        up + down == 0,
    ensures
        transposed(transposed(timeline, up, false), down, false) == timeline,
{
    let there = transposed(timeline, up, false);
    let back = transposed(there, down, false);
    assert forall|i: int| 0 <= i < timeline.len() implies back[i] == timeline[i] by {
        assert forall|j: int| 0 <= j < timeline[i].len() implies back[i][j] == timeline[i][j] by {
            assert(timeline[i][j].in_range());
            lemma_event_round_trip(timeline[i][j], up, down);
        }
        assert(back[i] =~= timeline[i]);
    }
    assert(back =~= timeline);
}

/// The events of a sub-track whose keys lie in the MIDI note range do so at
/// every tick.
proof fn lemma_events_at_in_range(track: Seq<RawEvent>, upto: int, at: int)
    requires
        0 <= upto <= track.len(),
        forall|e: int|
            0 <= e < track.len() ==> (match (#[trigger] track[e]).event {
                Some(event) => event.in_range(),
                None => true,
            }),
    ensures
        forall|j: int|
            0 <= j < events_at(track, upto, at).len() ==> (#[trigger] events_at(
                track,
                upto,
                at,
            )[j]).in_range(),
    decreases upto,
{
    if upto > 0 {
        lemma_events_at_in_range(track, upto - 1, at);
        let earlier = events_at(track, upto - 1, at);
        let now = events_at(track, upto, at);
        assert(match (#[trigger] track[upto - 1]).event {
            Some(event) => event.in_range(),
            None => true,
        });
        assert forall|j: int| 0 <= j < now.len() implies (#[trigger] now[j]).in_range() by {
            if j < earlier.len() {
                assert(now[j] == earlier[j]);
            }
        }
    }
}

proof fn lemma_merged_at_in_range(tracks: Seq<Seq<RawEvent>>, upto: int, at: int)
    requires
        0 <= upto <= tracks.len(),
        raw_keys_in_range(tracks),
    ensures
        forall|j: int|
            0 <= j < merged_at(tracks, upto, at).len() ==> (#[trigger] merged_at(
                tracks,
                upto,
                at,
            )[j]).in_range(),
    decreases upto,
{
    if upto > 0 {
        lemma_merged_at_in_range(tracks, upto - 1, at);
        let track = tracks[upto - 1];
        assert forall|e: int| 0 <= e < track.len() implies (match (#[trigger] track[e]).event {
            Some(event) => event.in_range(),
            None => true,
        }) by {
            assert(track[e] == tracks[upto - 1][e]);
        }
        lemma_events_at_in_range(track, track.len() as int, at);
        let earlier = merged_at(tracks, upto - 1, at);
        let added = events_at(track, track.len() as int, at);
        let now = merged_at(tracks, upto, at);
        assert forall|j: int| 0 <= j < now.len() implies (#[trigger] now[j]).in_range() by {
            if j < earlier.len() {
                assert(now[j] == earlier[j]);
            } else {
                assert(now[j] == added[j - earlier.len()]);
            }
        }
    }
}

proof fn lemma_sequential_upto_in_range(tracks: Seq<Seq<RawEvent>>, upto: int)
    requires
        0 <= upto <= tracks.len(),
        raw_keys_in_range(tracks),
    ensures
        keys_in_range(sequential_upto(tracks, upto)),
    decreases upto,
{
    if upto > 0 {
        lemma_sequential_upto_in_range(tracks, upto - 1);
        let track = tracks[upto - 1];
        let before = sequential_upto(tracks, upto - 1);
        let whole = sequential_upto(tracks, upto);
        assert forall|e: int| 0 <= e < track.len() implies (match (#[trigger] track[e]).event {
            Some(event) => event.in_range(),
            None => true,
        }) by {
            assert(track[e] == tracks[upto - 1][e]);
        }
        assert forall|i: int, j: int| 0 <= i < whole.len() && 0 <= j < whole[i].len() implies (
        #[trigger] whole[i][j]).in_range() by {
            if i < before.len() {
                assert(whole[i] == before[i]);
                assert(before[i][j].in_range());
            } else {
                lemma_events_at_in_range(track, track.len() as int, i - before.len());
            }
        }
    }
}

/// Sub-tracks whose keys lie in the MIDI note range give, laid one after
/// the other, a timeline whose keys do.
pub proof fn lemma_sequential_in_range(tracks: Seq<Seq<RawEvent>>)
    requires
        raw_keys_in_range(tracks),
    ensures
        keys_in_range(sequential(tracks)),
{
    lemma_sequential_upto_in_range(tracks, tracks.len() as int);
}

/// Sub-tracks whose keys lie in the MIDI note range give, laid side by side,
/// a timeline whose keys do.
pub proof fn lemma_parallel_in_range(tracks: Seq<Seq<RawEvent>>)
    requires
        raw_keys_in_range(tracks),
    ensures
        keys_in_range(parallel(tracks)),
{
    let whole = parallel(tracks);
    assert forall|i: int, j: int| 0 <= i < whole.len() && 0 <= j < whole[i].len() implies (
    #[trigger] whole[i][j]).in_range() by {
        lemma_merged_at_in_range(tracks, tracks.len() as int, i);
    }
}

} // verus!
