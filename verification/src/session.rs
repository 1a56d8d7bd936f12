//! The playlist before it plays: transposed once, shuffled once.

use vstd::prelude::*;
use rand::seq::SliceRandom;
use crate::playback::tracks_view;
use crate::timeline::transposed;
use crate::timer::{total_delay, Speed};
use crate::track::{Track, TrackView};

verus! {

/// The tracks of `tracks`, each with every key moved by `semitones`. No key
/// is clamped: one that leaves the MIDI note range is kept as it comes out.
pub open spec fn transposed_tracks(tracks: Seq<TrackView>, semitones: i8) -> Seq<TrackView> {
    Seq::new(
        tracks.len(),
        |i: int| TrackView { sheet: transposed(tracks[i].sheet, semitones, false), ..tracks[i] },
    )
}

/// Calls `shuffle` of `rand::seq::SliceRandom` with the thread's generator.
/// It swaps entries of the slice: which order comes out is left open, but
/// the tracks are the same ones, each as often as before.
#[verifier::external_body]
fn shuffle(tracks: &mut Vec<Track>)
    ensures
        tracks_view(final(tracks)@).to_multiset() == tracks_view(old(tracks)@).to_multiset(),
{
    tracks.shuffle(&mut rand::thread_rng());
}

/// Makes the playlist ready to play: every track is transposed by
/// `semitones`, and where `shuffle_tracks` is set the tracks are then put in
/// a random order. That order stays for the whole session.
///
/// Whatever order comes out, the playlist holds the transposed tracks and no
/// others; without shuffling they stand in the order given.
pub fn prepare(tracks: &mut Vec<Track>, semitones: i8, shuffle_tracks: bool)
    ensures
        tracks_view(final(tracks)@).to_multiset() == transposed_tracks(
            tracks_view(old(tracks)@),
            semitones,
        ).to_multiset(),
        !shuffle_tracks ==> tracks_view(final(tracks)@) == transposed_tracks(
            tracks_view(old(tracks)@),
            semitones,
        ),
{
    let ghost given = tracks_view(tracks@);
    let mut i: usize = 0;
    while i < tracks.len()
        invariant
            i <= tracks@.len(),
            tracks@.len() == given.len(),
            forall|k: int| 0 <= k < i ==> (#[trigger] tracks@[k])@ == transposed_tracks(given, semitones)[k],
            forall|k: int| i <= k < tracks@.len() ==> (#[trigger] tracks@[k])@ == given[k],
        decreases tracks@.len() - i,
    {
        tracks[i].transpose(semitones, false);
        i = i + 1;
    }
    assert(tracks_view(tracks@) =~= transposed_tracks(given, semitones));
    if shuffle_tracks {
        shuffle(tracks);
    }
}

/// The time that the first `upto` tracks of `tracks` take at the speed
/// `num / den`, one after the other.
pub open spec fn playlist_micros(tracks: Seq<TrackView>, upto: int, num: nat, den: nat) -> nat
    decreases upto,
{
    if upto <= 0 {
        0
    } else {
        playlist_micros(tracks, upto - 1, num, den) + total_delay(
            tracks[upto - 1].sheet,
            tracks[upto - 1].sheet.len() as int,
            0,
            tracks[upto - 1].tpb as nat,
            num,
            den,
        )
    }
}

/// Microseconds that the whole playlist takes at the speed `speed`, as far
/// as 128 bits hold them.
pub fn total_duration(tracks: &Vec<Track>, speed: Speed) -> (micros: u128)
    ensures
        micros == if playlist_micros(
            tracks_view(tracks@),
            tracks@.len() as int,
            speed.num(),
            speed.den(),
        ) > u128::MAX {
            u128::MAX as nat
        } else {
            playlist_micros(tracks_view(tracks@), tracks@.len() as int, speed.num(), speed.den())
        },
{
    let ghost views = tracks_view(tracks@);
    let mut total: u128 = 0;
    let mut i: usize = 0;
    while i < tracks.len()
        invariant
            i <= tracks@.len(),
            views == tracks_view(tracks@),
            total == playlist_micros(views, i as int, speed.num(), speed.den()),
        decreases tracks@.len() - i,
    {
        let one = tracks[i].duration_at(speed);
        if one > u128::MAX - total {
            proof {
                lemma_playlist_micros_grows(
                    views,
                    i + 1,
                    tracks@.len() as int,
                    speed.num(),
                    speed.den(),
                );
            }
            return u128::MAX;
        }
        total = total + one;
        i = i + 1;
    }
    total
}

proof fn lemma_playlist_micros_grows(tracks: Seq<TrackView>, from: int, to: int, num: nat, den: nat)
    requires
        0 <= from <= to,
    ensures
        playlist_micros(tracks, from, num, den) <= playlist_micros(tracks, to, num, den),
    decreases to - from,
{
    if from < to {
        lemma_playlist_micros_grows(tracks, from, to - 1, num, den);
    }
}

} // verus!
