//! The input listener: which key means what, and when the listener ends.
//!
//! The listener reads keys while the transport plays. It neither reads nor
//! sends here: the loop that owns the terminal and the control channel hands
//! in what happened as an [`Input`] and carries out the [`Directive`] it gets
//! back.

use vstd::prelude::*;
use crate::Command;

verus! {

/// The keys that the listener tells apart.
#[derive(Clone, Copy, Debug, PartialEq, Eq, Structural)]
pub enum Key {
    Esc,
    Left,
    Right,
    Char(char),
    /// Any other key.
    Other,
}

/// One key event of the terminal.
#[derive(Clone, Copy, Debug, PartialEq, Eq, Structural)]
pub struct KeyPress {
    /// The key.
    pub key: Key,
    /// Whether the key went down; a release or a repeat is no press.
    pub pressed: bool,
    /// Whether the control key, and no other modifier, was held.
    pub control: bool,
}

/// What a key event asks for.
#[derive(Clone, Copy, Debug, PartialEq, Eq, Structural)]
pub enum Intent {
    /// End the session.
    Quit,
    /// Send this command to the transport.
    Send(Command),
    /// Nothing.
    Ignore,
}

/// What the key event `press` asks for. Only presses count. Escape quits,
/// and so do `c`, `d` and `q` with control; with control the left arrow asks
/// for the previous track and the right arrow for the next; the space bar
/// pauses and resumes, whatever modifier is held.
pub open spec fn intent_of(press: KeyPress) -> Intent {
    if !press.pressed {
        Intent::Ignore
    } else {
        match press.key {
            Key::Esc => Intent::Quit,
            Key::Char(c) => if press.control && (c == 'c' || c == 'd' || c == 'q') {
                Intent::Quit
            } else if c == ' ' {
                Intent::Send(Command::Pause)
            } else {
                Intent::Ignore
            },
            Key::Left => if press.control {
                Intent::Send(Command::Prev)
            } else {
                Intent::Ignore
            },
            Key::Right => if press.control {
                Intent::Send(Command::Next)
            } else {
                Intent::Ignore
            },
            Key::Other => Intent::Ignore,
        }
    }
}

/// Computes [`intent_of`].
pub fn interpret(press: KeyPress) -> (intent: Intent)
    ensures
        intent == intent_of(press),
{
    if !press.pressed {
        return Intent::Ignore;
    }
    match press.key {
        Key::Esc => Intent::Quit,
        Key::Char(c) => {
            if press.control && (c == 'c' || c == 'd' || c == 'q') {
                Intent::Quit
            } else if c == ' ' {
                Intent::Send(Command::Pause)
            } else {
                Intent::Ignore
            }
        },
        Key::Left => {
            if press.control {
                Intent::Send(Command::Prev)
            } else {
                Intent::Ignore
            }
        },
        Key::Right => {
            if press.control {
                Intent::Send(Command::Next)
            } else {
                Intent::Ignore
            }
        },
        Key::Other => Intent::Ignore,
    }
}

/// What the listener's loop reports.
#[derive(Clone, Copy, Debug, PartialEq, Eq, Structural)]
pub enum Input {
    /// The transport has signalled that playback is over, or its end of the
    /// shutdown channel is gone.
    Shutdown,
    /// The terminal delivers no more events, or reading one failed.
    Ended,
    /// A key event.
    Key(KeyPress),
    /// Any other event of the terminal.
    Other,
    /// The command handed out last was taken by the control channel.
    Sent,
    /// The command handed out last could not be sent: the transport no
    /// longer listens.
    Refused,
}

/// What the listener's loop is to do next.
#[derive(Clone, Copy, Debug, PartialEq, Eq, Structural)]
pub enum Directive {
    /// Wait for the next event of the terminal or for the shutdown signal.
    Listen,
    /// Send this command on the control channel, waiting until there is room
    /// for it.
    Send(Command),
    /// Close the sending end of the control channel, then wait for the
    /// shutdown signal alone.
    Close,
    /// Restore the terminal and end.
    Restore,
}

/// The listener.
#[derive(Clone, Copy, Debug, PartialEq, Eq, Structural)]
pub enum Listener {
    /// Keys are read and commands sent.
    Active,
    /// The control channel is closed from this side; only the shutdown
    /// signal is awaited.
    Closing,
    /// The terminal is restored.
    Done,
}

impl Listener {
    /// The listener as it begins.
    pub fn new() -> (listener: Listener)
        ensures
            listener == Listener::Active,
    {
        Listener::Active
    }

    /// The listener after `input`, and what its loop is to do.
    ///
    /// The shutdown signal ends the listener from every state. While it is
    /// active a key is taken for what [`intent_of`] says; when the terminal
    /// ends, a key quits or a command is refused, the listener closes the
    /// control channel, which ends playback, and waits for the shutdown
    /// signal before it restores the terminal.
    pub open spec fn after(self, input: Input) -> (Listener, Directive) {
        match self {
            Listener::Done => (Listener::Done, Directive::Restore),
            Listener::Closing => match input {
                Input::Shutdown => (Listener::Done, Directive::Restore),
                _ => (Listener::Closing, Directive::Close),
            },
            Listener::Active => match input {
                Input::Shutdown => (Listener::Done, Directive::Restore),
                Input::Ended => (Listener::Closing, Directive::Close),
                Input::Refused => (Listener::Closing, Directive::Close),
                Input::Key(press) => match intent_of(press) {
                    Intent::Quit => (Listener::Closing, Directive::Close),
                    Intent::Send(command) => (Listener::Active, Directive::Send(command)),
                    Intent::Ignore => (Listener::Active, Directive::Listen),
                },
                Input::Other => (Listener::Active, Directive::Listen),
                Input::Sent => (Listener::Active, Directive::Listen),
            },
        }
    }

    /// Takes what happened and says what to do next: see [`Listener::after`].
    pub fn step(&mut self, input: Input) -> (directive: Directive)
        ensures
            (*final(self), directive) == old(self).after(input),
    {
        let (next, directive) = match *self {
            Listener::Done => (Listener::Done, Directive::Restore),
            Listener::Closing => match input {
                Input::Shutdown => (Listener::Done, Directive::Restore),
                _ => (Listener::Closing, Directive::Close),
            },
            Listener::Active => match input {
                Input::Shutdown => (Listener::Done, Directive::Restore),
                Input::Ended => (Listener::Closing, Directive::Close),
                Input::Refused => (Listener::Closing, Directive::Close),
                Input::Key(press) => match interpret(press) {
                    Intent::Quit => (Listener::Closing, Directive::Close),
                    Intent::Send(command) => (Listener::Active, Directive::Send(command)),
                    Intent::Ignore => (Listener::Active, Directive::Listen),
                },
                Input::Other => (Listener::Active, Directive::Listen),
                Input::Sent => (Listener::Active, Directive::Listen),
            },
        };
        *self = next;
        directive
    }
}

/// The terminal is restored only once the shutdown signal has been seen:
/// a step asks for it exactly when it leads to the end, and it leads there
/// only from the end or by the signal.
pub proof fn lemma_restore_follows_shutdown(listener: Listener, input: Input)
    ensures
        listener.after(input).1 == Directive::Restore <==> listener.after(input).0
            == Listener::Done,
        listener.after(input).0 == Listener::Done ==> listener == Listener::Done || input
            == Input::Shutdown,
        input == Input::Shutdown ==> listener.after(input).0 == Listener::Done,
{
}

/// No command is made up and none is lost: a command is sent exactly when
/// an active listener sees the key that asks for it.
pub proof fn lemma_commands_come_from_keys(listener: Listener, input: Input, command: Command)
    ensures
        listener.after(input).1 == Directive::Send(command) <==> (listener == Listener::Active
            && (input matches Input::Key(press) && intent_of(press) == Intent::Send(command))),
{
}

/// A listener that has closed the control channel never sends again.
pub proof fn lemma_closed_stays_closed(listener: Listener, input: Input)
    requires
        listener != Listener::Active,
    ensures
        listener.after(input).0 != Listener::Active,
        !(listener.after(input).1 is Send),
        !(listener.after(input).1 is Listen),
{
}

} // verus!
