//! The transport: which track plays, where in it, and what is to be done next.
//!
//! The transport never waits and never touches a device. It is driven by a
//! loop that owns the control channel and the output sink: the loop carries
//! out the [`Action`] it was handed and comes back with a [`Signal`].

use vstd::prelude::*;
use crate::event::{Event, MidiEvent};
use crate::timer::{idle_at, lemma_idle_at_most, moment_delay, tempo_at, total_delay, Pausable, Speed};
use crate::track::{Track, TrackView};
use crate::Command;

verus! {

/// What the loop reports after it has carried out an action.
#[derive(Clone, Copy, Debug, PartialEq, Eq, Structural)]
pub enum Signal {
    /// The action is done and no command has come.
    Quiet,
    /// A command was taken from the control channel.
    Received(Command),
    /// The control channel is closed: nobody is left to send a command.
    Closed,
}

/// What the loop is asked to do next.
#[derive(Debug)]
pub enum Action {
    /// Reset the output sink: track `track` begins at its tick 0.
    Reset { track: usize },
    /// Look at the control channel without waiting.
    Poll,
    /// Silence every note, then wait on the control channel until a command
    /// comes. `first` is false where this track has been paused before.
    Pause { first: bool },
    /// Wait `delay` microseconds, then hand `events` to the sink in order.
    Deliver { delay: u128, events: Vec<MidiEvent> },
    /// Playback is over.
    Stop,
}

/// An [`Action`] as plain values.
pub enum ActionView {
    Reset { track: nat },
    Poll,
    Pause { first: bool },
    Deliver { delay: nat, events: Seq<MidiEvent> },
    Stop,
}

impl View for Action {
    type V = ActionView;

    open spec fn view(&self) -> ActionView {
        match *self {
            Action::Reset { track } => ActionView::Reset { track: track as nat },
            Action::Poll => ActionView::Poll,
            Action::Pause { first } => ActionView::Pause { first },
            Action::Deliver { delay, events } => ActionView::Deliver {
                delay: delay as nat,
                events: events@,
            },
            Action::Stop => ActionView::Stop,
        }
    }
}

/// The action that the loop is carrying out.
#[derive(Clone, Copy, Debug, PartialEq, Eq, Structural)]
pub enum Phase {
    /// The session begins: the sink is being reset for its first track.
    Opening,
    /// The sink is being reset for the track that begins after another.
    Resetting,
    /// The control channel is being looked at, before the tick at the
    /// transport's position.
    Polling,
    /// The sink has been silenced and a command is awaited.
    Paused,
    /// A moment is being delivered; the position is already past it.
    Delivering,
    /// Playback is over.
    Finished,
}

/// The state of the transport as an operator sees it.
#[derive(Clone, Copy, Debug, PartialEq, Eq, Structural)]
pub enum State {
    /// The track of this index is playing.
    Playing(usize),
    /// The track of this index is paused.
    Paused(usize),
    /// Between two tracks: the sink is being reset for the one that begins.
    Advancing,
    /// Playback is over.
    Finished,
}

/// The musical events of `moment`, in their order.
pub open spec fn musical(moment: Seq<Event>) -> Seq<MidiEvent>
    decreases moment.len(),
{
    if moment.len() == 0 {
        Seq::empty()
    } else {
        match moment.last() {
            Event::Midi(e) => musical(moment.drop_last()).push(e),
            Event::Tempo(_) => musical(moment.drop_last()),
        }
    }
}

/// The transport as plain values.
pub struct TransportView {
    /// The playlist, in the order in which it plays.
    pub tracks: Seq<TrackView>,
    /// Whether play goes on with the first track after the last.
    pub repeat: bool,
    /// The playback speed.
    pub speed: Speed,
    /// The track that plays.
    pub index: nat,
    /// The tick of that track that comes next.
    pub position: nat,
    /// What the loop is doing.
    pub phase: Phase,
    /// Whether the track has been paused since it began.
    pub paused_before: bool,
}

impl TransportView {
    /// The timeline of the track that plays.
    pub open spec fn sheet(self) -> Seq<Seq<Event>> {
        self.tracks[self.index as int].sheet
    }

    /// While playback is not over there is a track that plays, the position
    /// lies within it, and a tick that is being polled for exists.
    pub open spec fn valid(self) -> bool {
        self.phase != Phase::Finished ==> {
            &&& self.index < self.tracks.len()
            &&& self.position <= self.sheet().len()
            &&& self.phase == Phase::Polling ==> self.position < self.sheet().len()
        }
    }

    /// The state as an operator sees it.
    pub open spec fn state(self) -> State {
        match self.phase {
            Phase::Opening => State::Playing(self.index as usize),
            Phase::Resetting => State::Advancing,
            Phase::Polling => State::Playing(self.index as usize),
            Phase::Delivering => State::Playing(self.index as usize),
            Phase::Paused => State::Paused(self.index as usize),
            Phase::Finished => State::Finished,
        }
    }

    /// The wait before tick `at` of the track that plays, at the transport's
    /// speed.
    pub open spec fn wait_before(self, at: int) -> nat {
        moment_delay(
            self.sheet(),
            at,
            0,
            self.tracks[self.index as int].tpb as nat,
            self.speed.num(),
            self.speed.den(),
        )
    }

    /// The waits that have been handed out since the track began.
    pub open spec fn waited(self) -> nat {
        total_delay(
            self.sheet(),
            self.position as int,
            0,
            self.tracks[self.index as int].tpb as nat,
            self.speed.num(),
            self.speed.den(),
        )
    }

    /// The waits of the whole track that plays.
    pub open spec fn whole(self) -> nat {
        total_delay(
            self.sheet(),
            self.sheet().len() as int,
            0,
            self.tracks[self.index as int].tpb as nat,
            self.speed.num(),
            self.speed.den(),
        )
    }

    /// Track `index` begins: the sink is reset first, and the track starts
    /// at its tick 0 as one that has not been paused.
    pub open spec fn enter(self, index: nat) -> (TransportView, ActionView) {
        (
            TransportView {
                index,
                position: 0,
                phase: Phase::Resetting,
                paused_before: false,
                ..self
            },
            ActionView::Reset { track: index },
        )
    }

    /// Playback ends.
    pub open spec fn finish(self) -> (TransportView, ActionView) {
        (TransportView { phase: Phase::Finished, ..self }, ActionView::Stop)
    }

    /// The track that plays is left for the one after it. After the last
    /// track comes the first where the playlist repeats, and the end where it
    /// does not.
    pub open spec fn leave(self) -> (TransportView, ActionView) {
        if self.index + 1 < self.tracks.len() {
            self.enter(self.index + 1)
        } else if self.repeat {
            self.enter(0)
        } else {
            self.finish()
        }
    }

    /// The track that plays is left for the one before it; the first track
    /// begins again.
    pub open spec fn back(self) -> (TransportView, ActionView) {
        if self.index > 0 {
            self.enter((self.index - 1) as nat)
        } else {
            self.enter(0)
        }
    }

    /// The next tick is to be looked at: the control channel is polled before
    /// it, and past the last tick the track is left.
    pub open spec fn next_tick(self) -> (TransportView, ActionView) {
        if self.position >= self.sheet().len() {
            self.leave()
        } else {
            (TransportView { phase: Phase::Polling, ..self }, ActionView::Poll)
        }
    }

    /// The tick at the position is played. An empty moment costs no action:
    /// the tick after it is looked at. Any other moment is delivered at once
    /// and whole: one wait, for the idle ticks before it at the tempo that
    /// held before it, then its musical events in order.
    pub open spec fn advance(self) -> (TransportView, ActionView) {
        if self.position >= self.sheet().len() {
            self.leave()
        } else if self.sheet()[self.position as int].len() == 0 {
            (TransportView { position: self.position + 1, ..self }).next_tick()
        } else {
            (
                TransportView {
                    position: self.position + 1,
                    phase: Phase::Delivering,
                    ..self
                },
                ActionView::Deliver {
                    delay: self.wait_before(self.position as int),
                    events: musical(self.sheet()[self.position as int]),
                },
            )
        }
    }

    /// The transport pauses: the position stays.
    pub open spec fn pause(self) -> (TransportView, ActionView) {
        (
            TransportView { phase: Phase::Paused, paused_before: true, ..self },
            ActionView::Pause { first: !self.paused_before },
        )
    }

    /// What `signal` leads to: the state after it and the action to carry
    /// out next.
    ///
    /// Once playback is over it stays over. Before that, a closed channel
    /// ends it; `Next` and `Prev` leave the track, whatever the loop was
    /// doing; `Pause` pauses, and ends a pause by playing the tick at which
    /// it began. Where no command has come, play goes on: after a reset or a
    /// delivery with the poll for the next tick, after a poll with the tick
    /// itself, and a pause stays a pause.
    pub open spec fn step(self, signal: Signal) -> (TransportView, ActionView) {
        if self.phase == Phase::Finished {
            (self, ActionView::Stop)
        } else {
            match signal {
                Signal::Closed => self.finish(),
                Signal::Received(Command::Next) => self.leave(),
                Signal::Received(Command::Prev) => self.back(),
                Signal::Received(Command::Pause) => if self.phase == Phase::Paused {
                    self.advance()
                } else {
                    self.pause()
                },
                Signal::Quiet => match self.phase {
                    Phase::Opening => self.next_tick(),
                    Phase::Resetting => self.next_tick(),
                    Phase::Delivering => self.next_tick(),
                    Phase::Polling => self.advance(),
                    _ => self.pause(),
                },
            }
        }
    }

    /// The state in which a playlist begins, with the first action: the
    /// first track plays, and the sink is reset for it. Without a track
    /// playback is over at once.
    pub open spec fn start(tracks: Seq<TrackView>, repeat: bool, speed: Speed) -> (
        TransportView,
        ActionView,
    ) {
        let blank = TransportView {
            tracks,
            repeat,
            speed,
            index: 0,
            position: 0,
            phase: Phase::Finished,
            paused_before: false,
        };
        if tracks.len() > 0 {
            (TransportView { phase: Phase::Opening, ..blank }, ActionView::Reset { track: 0 })
        } else {
            (blank, ActionView::Stop)
        }
    }
}

/// `Prev` at the first track begins the first track again: the index stays
/// at 0 whether the playlist repeats or not.
pub proof fn lemma_previous_stays_at_first(s: TransportView)
    requires
        s.valid(),
        s.phase != Phase::Finished,
        s.index == 0,
    ensures
        s.step(Signal::Received(Command::Prev)).0.index == 0,
        s.step(Signal::Received(Command::Prev)).0.position == 0,
        s.step(Signal::Received(Command::Prev)).1 == (ActionView::Reset { track: 0 }),
{
}

/// `Prev` at any later track begins the track before it.
pub proof fn lemma_previous_steps_back(s: TransportView)
    requires
        s.valid(),
        s.phase != Phase::Finished,
        s.index > 0,
    ensures
        s.step(Signal::Received(Command::Prev)).0.index == s.index - 1,
        s.step(Signal::Received(Command::Prev)).0.position == 0,
        s.step(Signal::Received(Command::Prev)).1 == (ActionView::Reset {
            track: (s.index - 1) as nat,
        }),
{
}

/// `Next` begins the track after the one that plays; at the last track it
/// begins the first where the playlist repeats and ends playback where it does
/// not.
pub proof fn lemma_next_skips_forward(s: TransportView)
    requires
        s.valid(),
        s.phase != Phase::Finished,
    ensures
        ({
            let (t, a) = s.step(Signal::Received(Command::Next));
            if s.index + 1 < s.tracks.len() {
                t.index == s.index + 1 && t.position == 0 && a == (ActionView::Reset {
                    track: s.index + 1,
                })
            } else if s.repeat {
                t.index == 0 && t.position == 0 && a == (ActionView::Reset { track: 0 })
            } else {
                t.phase == Phase::Finished && a == ActionView::Stop
            }
        }),
{
}

/// A state stays valid under every signal.
pub proof fn lemma_step_keeps_valid(s: TransportView, signal: Signal)
    requires
        s.valid(),
    ensures
        s.step(signal).0.valid(),
{
}

/// No track begins without a reset of the sink: a step asks for the reset
/// exactly when it leads to a track's tick 0 with the sink not yet reset, and
/// whenever it changes the track.
pub proof fn lemma_reset_opens_every_track(s: TransportView, signal: Signal)
    requires
        s.valid(),
    ensures
        ({
            let (t, a) = s.step(signal);
            &&& a is Reset <==> (s.phase != Phase::Finished && t.phase == Phase::Resetting)
            &&& a is Reset ==> a == (ActionView::Reset { track: t.index }) && t.position == 0
            &&& t.phase != Phase::Finished && t.index != s.index ==> a is Reset
            &&& a is Stop <==> t.phase == Phase::Finished
        }),
{
}

/// `Next` and `Prev` do the same whatever the loop was doing: paused or
/// playing, the track is left in the same way.
pub proof fn lemma_skip_ignores_pause(s: TransportView, phase: Phase, command: Command)
    requires
        s.phase != Phase::Finished,
        phase != Phase::Finished,
        command != Command::Pause,
    ensures
        (TransportView { phase, ..s }).step(Signal::Received(command)) == s.step(
            Signal::Received(command),
        ),
{
}

/// A playlist that repeats and holds a track never ends by itself: short of
/// a closed channel, every signal leads to a state in which a track plays.
pub proof fn lemma_repeat_never_ends(s: TransportView, signal: Signal)
    requires
        s.valid(),
        s.repeat,
        s.phase != Phase::Finished,
        signal != Signal::Closed,
    ensures
        s.step(signal).0.phase != Phase::Finished,
        !(s.step(signal).1 is Stop),
{
}

/// The closed channel ends playback from every state, whatever tracks are
/// left.
pub proof fn lemma_closed_channel_ends_playback(s: TransportView)
    ensures
        s.step(Signal::Closed).0.phase == Phase::Finished,
        s.step(Signal::Closed).1 == ActionView::Stop,
{
}

/// A pause keeps the place: `Pause` leaves track and position as they are,
/// and the `Pause` that ends it leads to what the poll it interrupted would
/// have led to had no command come, tick for tick.
pub proof fn lemma_pause_resumes_in_place(s: TransportView)
    requires
        s.valid(),
        s.phase == Phase::Polling,
    ensures
        ({
            let (paused, silence) = s.step(Signal::Received(Command::Pause));
            let (resumed, action) = paused.step(Signal::Received(Command::Pause));
            let (played, expected) = s.step(Signal::Quiet);
            &&& silence == (ActionView::Pause { first: !s.paused_before })
            &&& paused.state() == State::Paused(s.index as usize)
            &&& paused.position == s.position
            &&& action == expected
            &&& resumed.index == played.index
            &&& resumed.position == played.position
            &&& resumed.phase == played.phase
        }),
{
}

/// While no command comes, the waits that the transport hands out are those
/// of the track, one by one: a delivery adds the wait of its moment to what
/// has been waited, a poll adds nothing, and the track is left only when the
/// waits of the whole track have been handed out.
pub proof fn lemma_quiet_play_hands_out_every_wait(s: TransportView)
    requires
        s.valid(),
        s.phase != Phase::Finished,
        s.phase != Phase::Paused,
    ensures
        ({
            let (t, a) = s.step(Signal::Quiet);
            match a {
                ActionView::Deliver { delay, .. } => t.index == s.index && t.waited() == s.waited()
                    + delay,
                ActionView::Poll => t.index == s.index && t.waited() == s.waited(),
                _ => s.waited() == s.whole(),
            }
        }),
{
    let tpb = s.tracks[s.index as int].tpb as nat;
    if s.position < s.sheet().len() {
        assert(total_delay(s.sheet(), (s.position + 1) as int, 0, tpb, s.speed.num(), s.speed.den())
            == s.waited() + s.wait_before(s.position as int));
    }
}

/// A track's whole wait at unit speed is the duration that the track holds.
pub proof fn lemma_unit_speed_whole_is_duration(s: TransportView)
    requires
        s.speed.num() == 1,
        s.speed.den() == 1,
    ensures
        s.whole() == crate::track::unit_duration(s.sheet(), s.tracks[s.index as int].tpb),
{
}


/// What a transport that no command reaches asks for from tick `from` of
/// `track` to the track's end: before each tick a poll, and after the poll
/// of a moment that holds an event its delivery.
pub open spec fn track_script(track: TrackView, speed: Speed, from: nat) -> Seq<ActionView>
    decreases track.sheet.len() - from,
{
    if from >= track.sheet.len() {
        Seq::empty()
    } else {
        seq![ActionView::Poll] + delivery(track, speed, from) + track_script(track, speed, from + 1)
    }
}

/// The delivery of tick `at` of `track`: none for an empty moment.
pub open spec fn delivery(track: TrackView, speed: Speed, at: nat) -> Seq<ActionView> {
    if track.sheet[at as int].len() == 0 {
        Seq::empty()
    } else {
        seq![
            ActionView::Deliver {
                delay: moment_delay(
                    track.sheet,
                    at as int,
                    0,
                    track.tpb as nat,
                    speed.num(),
                    speed.den(),
                ),
                events: musical(track.sheet[at as int]),
            },
        ]
    }
}

/// What a transport that no command reaches asks for from the beginning of
/// track `from` to the end of a playlist that does not repeat: for each
/// track the reset and then the track, and at last the stop.
pub open spec fn playlist_script(tracks: Seq<TrackView>, speed: Speed, from: nat) -> Seq<ActionView>
    decreases tracks.len() - from,
{
    if from >= tracks.len() {
        seq![ActionView::Stop]
    } else {
        seq![ActionView::Reset { track: from }] + track_script(tracks[from as int], speed, 0)
            + playlist_script(tracks, speed, from + 1)
    }
}

/// The waits of the deliveries in `script`, added up.
pub open spec fn script_wait(script: Seq<ActionView>) -> nat
    decreases script.len(),
{
    if script.len() == 0 {
        0
    } else {
        script_wait(script.drop_last()) + match script.last() {
            ActionView::Deliver { delay, .. } => delay,
            _ => 0,
        }
    }
}

/// The events of the deliveries in `script`, in order.
pub open spec fn script_events(script: Seq<ActionView>) -> Seq<MidiEvent>
    decreases script.len(),
{
    if script.len() == 0 {
        Seq::empty()
    } else {
        script_events(script.drop_last()) + match script.last() {
            ActionView::Deliver { events, .. } => events,
            _ => Seq::empty(),
        }
    }
}

/// The musical events of the first `upto` moments of `sheet`, in order.
pub open spec fn all_musical(sheet: Seq<Seq<Event>>, upto: int) -> Seq<MidiEvent>
    decreases upto,
{
    if upto <= 0 {
        Seq::empty()
    } else {
        all_musical(sheet, upto - 1) + musical(sheet[upto - 1])
    }
}

impl TransportView {
    /// The state after `n` steps in which no command comes, with the actions
    /// that those steps ask for.
    pub open spec fn quiet_run(self, n: nat) -> (TransportView, Seq<ActionView>)
        decreases n,
    {
        if n == 0 {
            (self, Seq::empty())
        } else {
            let (next, action) = self.step(Signal::Quiet);
            let (last, actions) = next.quiet_run((n - 1) as nat);
            (last, seq![action] + actions)
        }
    }

    /// The track that plays.
    pub open spec fn track(self) -> TrackView {
        self.tracks[self.index as int]
    }

    /// The state in which the track that plays has been played to its end.
    pub open spec fn at_end(self) -> TransportView {
        TransportView { position: self.sheet().len(), phase: Phase::Delivering, ..self }
    }
}

/// Two runs without a command, one after the other, are one run.
pub proof fn lemma_quiet_run_adds(s: TransportView, first: nat, second: nat)
    ensures
        s.quiet_run(first + second).0 == s.quiet_run(first).0.quiet_run(second).0,
        s.quiet_run(first + second).1 == s.quiet_run(first).1 + s.quiet_run(first).0.quiet_run(
            second,
        ).1,
    decreases first,
{
    if first == 0 {
        assert(s.quiet_run(0).1 + s.quiet_run(second).1 =~= s.quiet_run(second).1);
    } else {
        let (next, action) = s.step(Signal::Quiet);
        lemma_quiet_run_adds(next, (first - 1) as nat, second);
        assert((first + second - 1) as nat == (first - 1) as nat + second);
        let head = next.quiet_run((first - 1) as nat);
        let tail = head.0.quiet_run(second);
        assert(seq![action] + (head.1 + tail.1) =~= (seq![action] + head.1) + tail.1);
    }
}

/// From a poll on, a transport that no command reaches plays its track to
/// the end, tick by tick as [`track_script`] says, and then leaves it.
proof fn lemma_polled_track_plays_out(s: TransportView)
    requires
        s.valid(),
        s.phase == Phase::Polling,
    ensures
        ({
            let rest = delivery(s.track(), s.speed, s.position) + track_script(
                s.track(),
                s.speed,
                s.position + 1,
            );
            let (last, actions) = s.quiet_run(rest.len() + 1);
            &&& last == s.at_end().leave().0
            &&& actions == rest.push(s.at_end().leave().1)
        }),
    decreases s.sheet().len() - s.position,
{
    let track = s.track();
    let at = s.position;
    let rest = delivery(track, s.speed, at) + track_script(track, s.speed, at + 1);
    let leaving = s.at_end().leave();
    let (next, action) = s.step(Signal::Quiet);
    if s.sheet()[at as int].len() == 0 {
        assert(rest =~= track_script(track, s.speed, at + 1));
        if at + 1 >= s.sheet().len() {
            assert(rest.len() == 0);
            assert(next.quiet_run(0).1 =~= Seq::<ActionView>::empty());
            assert(next == leaving.0);
            assert(seq![action] + Seq::<ActionView>::empty() =~= rest.push(leaving.1));
        } else {
            assert(next.phase == Phase::Polling && next.position == at + 1);
            lemma_polled_track_plays_out(next);
            let after = delivery(track, s.speed, at + 1) + track_script(track, s.speed, at + 2);
            assert(track_script(track, s.speed, at + 1) =~= seq![ActionView::Poll] + after);
            assert(next.at_end() == s.at_end());
            assert(rest.len() == after.len() + 1);
            assert(seq![action] + after.push(leaving.1) =~= rest.push(leaving.1));
        }
    } else {
        let played = delivery(track, s.speed, at);
        assert(played.len() == 1);
        assert(action == played[0]);
        assert(next.phase == Phase::Delivering && next.position == at + 1);
        let (then, second) = next.step(Signal::Quiet);
        if at + 1 >= s.sheet().len() {
            assert(track_script(track, s.speed, at + 1) =~= Seq::<ActionView>::empty());
            assert(rest =~= played);
            assert(then == leaving.0);
            assert(then.quiet_run(0).1 =~= Seq::<ActionView>::empty());
            assert(next.quiet_run(1).1 =~= seq![second]);
            assert(seq![action] + seq![second] =~= rest.push(leaving.1));
        } else {
            assert(then.phase == Phase::Polling && then.position == at + 1);
            lemma_polled_track_plays_out(then);
            let after = delivery(track, s.speed, at + 1) + track_script(track, s.speed, at + 2);
            assert(track_script(track, s.speed, at + 1) =~= seq![ActionView::Poll] + after);
            assert(then.at_end() == s.at_end());
            assert(rest.len() == after.len() + 2);
            let tail = then.quiet_run(after.len() + 1);
            assert(next.quiet_run(after.len() + 2).1 =~= seq![second] + tail.1);
            assert(seq![action] + (seq![second] + after.push(leaving.1)) =~= rest.push(
                leaving.1,
            ));
        }
    }
}

/// A transport that no command reaches plays the track it has just entered
/// from its first tick to its last: the steps ask for what [`track_script`]
/// says, and then for what leaving the track takes.
pub proof fn lemma_track_plays_out(s: TransportView)
    requires
        s.valid(),
        s.phase == Phase::Opening || s.phase == Phase::Resetting,
        s.position == 0,
    ensures
        ({
            let script = track_script(s.track(), s.speed, 0);
            let (last, actions) = s.quiet_run(script.len() + 1);
            &&& last == s.at_end().leave().0
            &&& actions == script.push(s.at_end().leave().1)
        }),
{
    let script = track_script(s.track(), s.speed, 0);
    let leaving = s.at_end().leave();
    let (next, action) = s.step(Signal::Quiet);
    if s.sheet().len() == 0 {
        assert(script =~= Seq::<ActionView>::empty());
        assert(next.quiet_run(0).1 =~= Seq::<ActionView>::empty());
        assert(next == leaving.0);
        assert(seq![action] + Seq::<ActionView>::empty() =~= script.push(leaving.1));
    } else {
        lemma_polled_track_plays_out(next);
        let rest = delivery(s.track(), s.speed, 0) + track_script(s.track(), s.speed, 1);
        assert(script =~= seq![ActionView::Poll] + rest);
        assert(next.at_end() == s.at_end());
        assert(seq![action] + rest.push(leaving.1) =~= script.push(leaving.1));
    }
}

/// A playlist that does not repeat and that no command reaches is played
/// from the track just entered to its end: track after track in the order
/// of the playlist, each opened by a reset of the sink and played from its
/// first tick to its last, and then playback is over.
pub proof fn lemma_playlist_plays_out(s: TransportView)
    requires
        s.valid(),
        !s.repeat,
        s.phase == Phase::Opening || s.phase == Phase::Resetting,
        s.position == 0,
    ensures
        ({
            let script = track_script(s.track(), s.speed, 0) + playlist_script(
                s.tracks,
                s.speed,
                s.index + 1,
            );
            let (last, actions) = s.quiet_run(script.len());
            &&& last.phase == Phase::Finished
            &&& actions == script
        }),
    decreases s.tracks.len() - s.index,
{
    let track = track_script(s.track(), s.speed, 0);
    let later = playlist_script(s.tracks, s.speed, s.index + 1);
    lemma_track_plays_out(s);
    let (left, first) = s.quiet_run(track.len() + 1);
    let leaving = s.at_end().leave();
    if s.index + 1 < s.tracks.len() {
        assert(left.phase == Phase::Resetting && left.index == s.index + 1 && left.position == 0);
        lemma_playlist_plays_out(left);
        let next = track_script(left.track(), left.speed, 0);
        let beyond = playlist_script(s.tracks, s.speed, s.index + 2);
        assert(later =~= seq![ActionView::Reset { track: s.index + 1 }] + next + beyond);
        lemma_quiet_run_adds(s, track.len() + 1, (next + beyond).len());
        assert((track + later).len() == track.len() + 1 + (next + beyond).len());
        assert(track.push(leaving.1) + (next + beyond) =~= track + later);
    } else {
        assert(later =~= seq![ActionView::Stop]);
        assert(track.push(leaving.1) =~= track + later);
    }
}

/// The same from the very beginning: a playlist that does not repeat and
/// that no command reaches asks, after the reset that opens it, for exactly
/// what [`playlist_script`] says, and ends.
pub proof fn lemma_session_plays_out(tracks: Seq<TrackView>, speed: Speed)
    ensures
        ({
            let (s, first) = TransportView::start(tracks, false, speed);
            let script = playlist_script(tracks, speed, 0);
            let (last, actions) = s.quiet_run((script.len() - 1) as nat);
            &&& last.phase == Phase::Finished
            &&& seq![first] + actions == script
        }),
{
    let (s, first) = TransportView::start(tracks, false, speed);
    let script = playlist_script(tracks, speed, 0);
    if tracks.len() == 0 {
        assert(script =~= seq![ActionView::Stop]);
        assert(seq![first] + s.quiet_run(0).1 =~= script);
    } else {
        lemma_playlist_plays_out(s);
        let rest = track_script(tracks[0], speed, 0) + playlist_script(tracks, speed, 1);
        assert(script =~= seq![ActionView::Reset { track: 0 }] + rest);
        assert(seq![first] + rest =~= script);
    }
}

/// The waits that a track's script hands out add up to the time that the
/// track takes at that speed, and its deliveries hold the musical events of
/// the track, each once and in order.
pub proof fn lemma_track_script_is_the_track(track: TrackView, speed: Speed)
    ensures
        script_wait(track_script(track, speed, 0)) == total_delay(
            track.sheet,
            track.sheet.len() as int,
            0,
            track.tpb as nat,
            speed.num(),
            speed.den(),
        ),
        script_events(track_script(track, speed, 0)) == all_musical(
            track.sheet,
            track.sheet.len() as int,
        ),
{
    lemma_track_script_from(track, speed, 0);
    assert(Seq::<MidiEvent>::empty() + script_events(track_script(track, speed, 0))
        =~= script_events(track_script(track, speed, 0)));
}

proof fn lemma_script_appends(first: Seq<ActionView>, second: Seq<ActionView>)
    ensures
        script_wait(first + second) == script_wait(first) + script_wait(second),
        script_events(first + second) == script_events(first) + script_events(second),
    decreases second.len(),
{
    if second.len() == 0 {
        assert(first + second =~= first);
        assert(script_events(first) + Seq::<MidiEvent>::empty() =~= script_events(first));
    } else {
        lemma_script_appends(first, second.drop_last());
        assert((first + second).drop_last() =~= first + second.drop_last());
        assert((first + second).last() == second.last());
        let events = match second.last() {
            ActionView::Deliver { events, .. } => events,
            _ => Seq::empty(),
        };
        assert((script_events(first) + script_events(second.drop_last())) + events
            =~= script_events(first) + (script_events(second.drop_last()) + events));
    }
}

proof fn lemma_script_of_one(action: ActionView)
    ensures
        script_wait(seq![action]) == match action {
            ActionView::Deliver { delay, .. } => delay,
            _ => 0,
        },
        script_events(seq![action]) == match action {
            ActionView::Deliver { events, .. } => events,
            _ => Seq::empty(),
        },
{
    let one = seq![action];
    assert(one.drop_last() =~= Seq::<ActionView>::empty());
    assert(one.last() == action);
    assert(script_wait(one.drop_last()) == 0);
    assert(script_events(one.drop_last()) =~= Seq::<MidiEvent>::empty());
    let events = match action {
        ActionView::Deliver { events, .. } => events,
        _ => Seq::empty(),
    };
    assert(Seq::<MidiEvent>::empty() + events =~= events);
}

proof fn lemma_track_script_from(track: TrackView, speed: Speed, from: nat)
    requires
        from <= track.sheet.len(),
    ensures
        total_delay(track.sheet, from as int, 0, track.tpb as nat, speed.num(), speed.den())
            + script_wait(track_script(track, speed, from)) == total_delay(
            track.sheet,
            track.sheet.len() as int,
            0,
            track.tpb as nat,
            speed.num(),
            speed.den(),
        ),
        all_musical(track.sheet, from as int) + script_events(track_script(track, speed, from))
            == all_musical(track.sheet, track.sheet.len() as int),
    decreases track.sheet.len() - from,
{
    let script = track_script(track, speed, from);
    if from >= track.sheet.len() {
        assert(script =~= Seq::<ActionView>::empty());
        assert(all_musical(track.sheet, from as int) + Seq::<MidiEvent>::empty() =~= all_musical(
            track.sheet,
            from as int,
        ));
    } else {
        lemma_track_script_from(track, speed, from + 1);
        let poll = seq![ActionView::Poll];
        let played = delivery(track, speed, from);
        let rest = track_script(track, speed, from + 1);
        lemma_script_appends(poll + played, rest);
        lemma_script_appends(poll, played);
        lemma_script_of_one(ActionView::Poll);
        if played.len() > 0 {
            lemma_script_of_one(played[0]);
            assert(played =~= seq![played[0]]);
        } else {
            assert(played =~= Seq::<ActionView>::empty());
            assert(musical(track.sheet[from as int]) =~= Seq::<MidiEvent>::empty());
        }
        assert(Seq::<MidiEvent>::empty() + script_events(played) =~= script_events(played));
        assert(script_events(poll + played) =~= musical(track.sheet[from as int]));
        assert(all_musical(track.sheet, from as int) + (musical(track.sheet[from as int])
            + script_events(rest)) =~= (all_musical(track.sheet, from as int) + musical(
            track.sheet[from as int],
        )) + script_events(rest));
    }
}

/// The part of the transport that moves.
#[derive(Clone, Copy, Debug)]
struct Playhead {
    index: usize,
    position: usize,
    idle: u32,
    clock: Pausable,
    phase: Phase,
    paused_before: bool,
}

/// The transport of one playlist.
#[derive(Debug)]
pub struct Transport {
    tracks: Vec<Track>,
    repeat: bool,
    speed: Speed,
    head: Playhead,
}

/// The tracks of a playlist as plain values.
pub open spec fn tracks_view(tracks: Seq<Track>) -> Seq<TrackView> {
    Seq::new(tracks.len(), |i: int| tracks[i]@)
}

spec fn model(tracks: Seq<Track>, repeat: bool, speed: Speed, head: Playhead) -> TransportView {
    TransportView {
        tracks: tracks_view(tracks),
        repeat,
        speed,
        index: head.index as nat,
        position: head.position as nat,
        phase: head.phase,
        paused_before: head.paused_before,
    }
}

/// The idle counter and the clock are those of a track played from its
/// start up to the position.
spec fn in_step(tracks: Seq<Track>, speed: Speed, head: Playhead) -> bool {
    head.phase != Phase::Finished ==> {
        &&& head.index < tracks.len()
        &&& head.position <= tracks[head.index as int]@.sheet.len()
        &&& head.phase == Phase::Polling ==> head.position < tracks[head.index as int]@.sheet.len()
        &&& head.idle == idle_at(tracks[head.index as int]@.sheet, head.position as int)
        &&& head.clock.tempo() == tempo_at(tracks[head.index as int]@.sheet, head.position as int, 0)
        &&& head.clock.ticks_per_beat() == tracks[head.index as int]@.tpb
        &&& head.clock.speed() == speed
    }
}

/// Computes [`musical`].
pub fn musical_events(moment: &Vec<Event>) -> (events: Vec<MidiEvent>)
    ensures
        events@ == musical(moment@),
{
    let mut events: Vec<MidiEvent> = Vec::new();
    let mut i: usize = 0;
    while i < moment.len()
        invariant
            i <= moment@.len(),
            events@ == musical(moment@.take(i as int)),
        decreases moment@.len() - i,
    {
        proof {
            let next = moment@.take(i + 1);
            assert(next.drop_last() =~= moment@.take(i as int));
            assert(next.last() == moment@[i as int]);
        }
        match moment[i] {
            Event::Midi(e) => {
                events.push(e);
            },
            Event::Tempo(_) => {},
        }
        i = i + 1;
    }
    proof {
        assert(moment@.take(moment@.len() as int) =~= moment@);
    }
    events
}

fn enter(tracks: &Vec<Track>, repeat: bool, speed: Speed, head: Playhead, index: usize) -> (r: (
    Playhead,
    Action,
))
    requires
        index < tracks@.len(),
    ensures
        in_step(tracks@, speed, r.0),
        (model(tracks@, repeat, speed, r.0), r.1@) == model(tracks@, repeat, speed, head).enter(
            index as nat,
        ),
{
    let mut clock = Pausable::new(tracks[index].tpb());
    clock.set_speed(speed);
    let next = Playhead {
        index,
        position: 0,
        idle: 0,
        clock,
        phase: Phase::Resetting,
        paused_before: false,
    };
    (next, Action::Reset { track: index })
}

fn finish(tracks: &Vec<Track>, repeat: bool, speed: Speed, head: Playhead) -> (r: (Playhead, Action))
    ensures
        in_step(tracks@, speed, r.0),
        (model(tracks@, repeat, speed, r.0), r.1@) == model(tracks@, repeat, speed, head).finish(),
{
    (Playhead { phase: Phase::Finished, ..head }, Action::Stop)
}

fn leave(tracks: &Vec<Track>, repeat: bool, speed: Speed, head: Playhead) -> (r: (Playhead, Action))
    requires
        head.index < tracks@.len(),
    ensures
        in_step(tracks@, speed, r.0),
        (model(tracks@, repeat, speed, r.0), r.1@) == model(tracks@, repeat, speed, head).leave(),
{
    if head.index < tracks.len() - 1 {
        enter(tracks, repeat, speed, head, head.index + 1)
    } else if repeat {
        enter(tracks, repeat, speed, head, 0)
    } else {
        finish(tracks, repeat, speed, head)
    }
}

fn back(tracks: &Vec<Track>, repeat: bool, speed: Speed, head: Playhead) -> (r: (Playhead, Action))
    requires
        head.index < tracks@.len(),
    ensures
        in_step(tracks@, speed, r.0),
        (model(tracks@, repeat, speed, r.0), r.1@) == model(tracks@, repeat, speed, head).back(),
{
    if head.index > 0 {
        enter(tracks, repeat, speed, head, head.index - 1)
    } else {
        enter(tracks, repeat, speed, head, 0)
    }
}

fn next_tick(tracks: &Vec<Track>, repeat: bool, speed: Speed, head: Playhead) -> (r: (
    Playhead,
    Action,
))
    requires
        head.phase != Phase::Finished,
        in_step(tracks@, speed, head),
    ensures
        in_step(tracks@, speed, r.0),
        (model(tracks@, repeat, speed, r.0), r.1@) == model(
            tracks@,
            repeat,
            speed,
            head,
        ).next_tick(),
{
    if head.position >= tracks[head.index].sheet().len() {
        leave(tracks, repeat, speed, head)
    } else {
        (Playhead { phase: Phase::Polling, ..head }, Action::Poll)
    }
}

fn advance(tracks: &Vec<Track>, repeat: bool, speed: Speed, head: Playhead) -> (r: (
    Playhead,
    Action,
))
    requires
        head.phase != Phase::Finished,
        in_step(tracks@, speed, head),
    ensures
        in_step(tracks@, speed, r.0),
        (model(tracks@, repeat, speed, r.0), r.1@) == model(tracks@, repeat, speed, head).advance(),
{
    let sheet = tracks[head.index].sheet();
    if head.position >= sheet.len() {
        leave(tracks, repeat, speed, head)
    } else {
        let moment = sheet.moment(head.position);
        proof {
            lemma_idle_at_most(sheet@, head.position as int);
        }
        if moment.len() == 0 {
            let skipped = Playhead {
                position: head.position + 1,
                idle: head.idle + 1,
                phase: Phase::Delivering,
                ..head
            };
            next_tick(tracks, repeat, speed, skipped)
        } else {
            let delay = head.clock.sleep_duration(head.idle);
            let events = musical_events(moment);
            let mut clock = head.clock;
            clock.follow(moment);
            let next = Playhead {
                position: head.position + 1,
                idle: 1,
                clock,
                phase: Phase::Delivering,
                ..head
            };
            (next, Action::Deliver { delay, events })
        }
    }
}

fn pause(tracks: &Vec<Track>, repeat: bool, speed: Speed, head: Playhead) -> (r: (Playhead, Action))
    requires
        head.phase != Phase::Finished,
        in_step(tracks@, speed, head),
    ensures
        in_step(tracks@, speed, r.0),
        (model(tracks@, repeat, speed, r.0), r.1@) == model(tracks@, repeat, speed, head).pause(),
{
    (
        Playhead { phase: Phase::Paused, paused_before: true, ..head },
        Action::Pause { first: !head.paused_before },
    )
}

impl View for Transport {
    type V = TransportView;

    closed spec fn view(&self) -> TransportView {
        model(self.tracks@, self.repeat, self.speed, self.head)
    }
}

impl Transport {
    #[verifier::type_invariant]
    spec fn coherent(self) -> bool {
        in_step(self.tracks@, self.speed, self.head)
    }

    /// The transport of the playlist `tracks`, with the first action.
    pub fn start(tracks: Vec<Track>, repeat: bool, speed: Speed) -> (r: (Transport, Action))
        ensures
            (r.0@, r.1@) == TransportView::start(tracks_view(tracks@), repeat, speed),
            r.0@.valid(),
    {
        let blank = Playhead {
            index: 0,
            position: 0,
            idle: 0,
            clock: Pausable::new(1),
            phase: Phase::Finished,
            paused_before: false,
        };
        if tracks.len() > 0 {
            let (entered, action) = enter(&tracks, repeat, speed, blank, 0);
            let head = Playhead { phase: Phase::Opening, ..entered };
            (Transport { tracks, repeat, speed, head }, action)
        } else {
            (Transport { tracks, repeat, speed, head: blank }, Action::Stop)
        }
    }

    /// The state as an operator sees it.
    pub fn state(&self) -> (state: State)
        ensures
            state == self@.state(),
    {
        match self.head.phase {
            Phase::Opening => State::Playing(self.head.index),
            Phase::Resetting => State::Advancing,
            Phase::Polling => State::Playing(self.head.index),
            Phase::Delivering => State::Playing(self.head.index),
            Phase::Paused => State::Paused(self.head.index),
            Phase::Finished => State::Finished,
        }
    }

    /// Whether playback is over.
    pub fn is_finished(&self) -> (over: bool)
        ensures
            over == (self@.phase == Phase::Finished),
    {
        matches!(self.head.phase, Phase::Finished)
    }

    /// The index of the track that plays; of the one that played last once
    /// playback is over.
    pub fn index(&self) -> (index: usize)
        ensures
            index == self@.index,
    {
        self.head.index
    }

    /// The tick of the track that comes next.
    pub fn position(&self) -> (position: usize)
        ensures
            position == self@.position,
    {
        self.head.position
    }

    /// The playlist.
    pub fn tracks(&self) -> (tracks: &Vec<Track>)
        ensures
            tracks_view(tracks@) == self@.tracks,
    {
        &self.tracks
    }

    /// The track that plays, while playback is not over.
    pub fn current(&self) -> (track: Option<&Track>)
        ensures
            match track {
                Some(track) => self@.phase != Phase::Finished && track@ == self@.tracks[self@.index as int],
                None => self@.phase == Phase::Finished,
            },
    {
        proof {
            use_type_invariant(self);
        }
        match self.head.phase {
            Phase::Finished => None,
            _ => Some(&self.tracks[self.head.index]),
        }
    }

    /// Whether the playlist begins again after its last track.
    pub fn repeat(&self) -> (repeat: bool)
        ensures
            repeat == self@.repeat,
    {
        self.repeat
    }

    /// The playback speed.
    pub fn speed(&self) -> (speed: Speed)
        ensures
            speed == self@.speed,
    {
        self.speed
    }

    /// Takes what the loop reports and says what it is to do next.
    pub fn step(&mut self, signal: Signal) -> (action: Action)
        ensures
            (final(self)@, action@) == old(self)@.step(signal),
            final(self)@.valid(),
    {
        proof {
            use_type_invariant(&*self);
        }
        let head = self.head;
        let (next, action) = match head.phase {
            Phase::Finished => (head, Action::Stop),
            _ => match signal {
                Signal::Closed => finish(&self.tracks, self.repeat, self.speed, head),
                Signal::Received(Command::Next) => leave(
                    &self.tracks,
                    self.repeat,
                    self.speed,
                    head,
                ),
                Signal::Received(Command::Prev) => back(
                    &self.tracks,
                    self.repeat,
                    self.speed,
                    head,
                ),
                Signal::Received(Command::Pause) => match head.phase {
                    Phase::Paused => advance(&self.tracks, self.repeat, self.speed, head),
                    _ => pause(&self.tracks, self.repeat, self.speed, head),
                },
                Signal::Quiet => match head.phase {
                    Phase::Opening => next_tick(&self.tracks, self.repeat, self.speed, head),
                    Phase::Resetting => next_tick(&self.tracks, self.repeat, self.speed, head),
                    Phase::Delivering => next_tick(&self.tracks, self.repeat, self.speed, head),
                    Phase::Polling => advance(&self.tracks, self.repeat, self.speed, head),
                    _ => pause(&self.tracks, self.repeat, self.speed, head),
                },
            },
        };
        self.head = next;
        action
    }
}

} // verus!
