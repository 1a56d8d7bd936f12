//! Durations as the operator reads them.

use vstd::prelude::*;

verus! {

/// The character that writes the digit `d`.
pub open spec fn digit_char(d: nat) -> char {
    if d == 0 {
        '0'
    } else if d == 1 {
        '1'
    } else if d == 2 {
        '2'
    } else if d == 3 {
        '3'
    } else if d == 4 {
        '4'
    } else if d == 5 {
        '5'
    } else if d == 6 {
        '6'
    } else if d == 7 {
        '7'
    } else if d == 8 {
        '8'
    } else {
        '9'
    }
}

/// The decimal digits of `n`, without leading zeros.
pub open spec fn decimal(n: nat) -> Seq<char>
    decreases n,
{
    if n < 10 {
        seq![digit_char(n)]
    } else {
        decimal(n / 10).push(digit_char(n % 10))
    }
}

/// A duration of `secs` seconds as text: minutes and seconds, as in `3m7s`,
/// and the seconds alone under one minute, as in `42s`.
pub open spec fn duration_text(secs: nat) -> Seq<char> {
    if secs / 60 > 0 {
        decimal(secs / 60) + seq!['m'] + decimal(secs % 60) + seq!['s']
    } else {
        decimal(secs % 60) + seq!['s']
    }
}

/// The whole seconds in `micros` microseconds, as far as 64 bits hold them.
pub open spec fn seconds_of(micros: nat) -> nat {
    if micros / 1_000_000 > u64::MAX {
        u64::MAX as nat
    } else {
        micros / 1_000_000
    }
}

/// Microseconds as far as 64 bits hold them.
pub open spec fn capped_micros(micros: nat) -> nat {
    if micros > u64::MAX {
        u64::MAX as nat
    } else {
        micros
    }
}

fn digit_text(d: u64) -> (text: &'static str)
    requires
        d < 10,
    ensures
        text@ == seq![digit_char(d as nat)],
{
    proof {
        reveal_strlit("0");
        reveal_strlit("1");
        reveal_strlit("2");
        reveal_strlit("3");
        reveal_strlit("4");
        reveal_strlit("5");
        reveal_strlit("6");
        reveal_strlit("7");
        reveal_strlit("8");
        reveal_strlit("9");
    }
    let text = if d == 0 {
        "0"
    } else if d == 1 {
        "1"
    } else if d == 2 {
        "2"
    } else if d == 3 {
        "3"
    } else if d == 4 {
        "4"
    } else if d == 5 {
        "5"
    } else if d == 6 {
        "6"
    } else if d == 7 {
        "7"
    } else if d == 8 {
        "8"
    } else {
        "9"
    };
    assert(text@ =~= seq![digit_char(d as nat)]);
    text
}

/// Appends the decimal digits of `n` to `text`.
fn push_decimal(text: &mut String, n: u64)
    ensures
        final(text)@ == old(text)@ + decimal(n as nat),
    decreases n,
{
    if n >= 10 {
        push_decimal(text, n / 10);
    }
    text.append(digit_text(n % 10));
    proof {
        if n >= 10 {
            assert(text@ =~= old(text)@ + decimal(n as nat));
        } else {
            assert(text@ =~= old(text)@ + decimal(n as nat));
        }
    }
}

/// Appends [`duration_text`] of `secs` to `text`.
fn push_duration(text: &mut String, secs: u64)
    ensures
        final(text)@ == old(text)@ + duration_text(secs as nat),
{
    proof {
        reveal_strlit("m");
        reveal_strlit("s");
        assert("m"@ =~= seq!['m']);
        assert("s"@ =~= seq!['s']);
    }
    let mins = secs / 60;
    let rest = secs % 60;
    if mins > 0 {
        push_decimal(text, mins);
        text.append("m");
    }
    push_decimal(text, rest);
    text.append("s");
    proof {
        assert(text@ =~= old(text)@ + duration_text(secs as nat));
    }
}

/// Writes a duration of `secs` seconds: see [`duration_text`].
pub fn format_duration(secs: u64) -> (text: String)
    ensures
        text@ == duration_text(secs as nat),
{
    let mut text = String::new();
    push_duration(&mut text, secs);
    proof {
        assert(Seq::<char>::empty() + duration_text(secs as nat) =~= duration_text(secs as nat));
    }
    text
}

/// What heads the screen while a playlist of `tracks` tracks plays that
/// takes `secs` seconds: how many tracks there are, how long they take, and
/// the keys that the operator has.
pub open spec fn header_text(tracks: nat, secs: nat) -> Seq<char> {
    "Playing "@ + decimal(tracks) + (if tracks == 1 {
        " track"@
    } else {
        " tracks"@
    }) + "\nTotal duration: "@ + duration_text(secs) + "\n"@
        + "Press the spacebar to play/pause, ctrl-left/right to play previous/next track\n"@
        + "Press the esc key or ctrl-c to exit"@
}

/// Writes [`header_text`].
pub fn header(tracks: usize, secs: u64) -> (text: String)
    ensures
        text@ == header_text(tracks as nat, secs as nat),
{
    let mut text = String::from_str("Playing ");
    push_decimal(&mut text, tracks as u64);
    if tracks == 1 {
        text.append(" track");
    } else {
        text.append(" tracks");
    }
    text.append("\nTotal duration: ");
    push_duration(&mut text, secs);
    text.append("\n");
    text.append("Press the spacebar to play/pause, ctrl-left/right to play previous/next track\n");
    text.append("Press the esc key or ctrl-c to exit");
    text
}

/// What is shown of the track that begins: its name, its number among the
/// `total` tracks counted from one, and the `secs` seconds that it takes.
pub open spec fn announcement_text(name: Seq<char>, number: nat, total: nat, secs: nat) -> Seq<
    char,
> {
    "Current: "@ + name + " ["@ + decimal(number) + "/"@ + decimal(total) + "]\nDuration = "@
        + duration_text(secs)
}

/// Writes [`announcement_text`].
pub fn announcement(name: &str, number: usize, total: usize, secs: u64) -> (text: String)
    ensures
        text@ == announcement_text(name@, number as nat, total as nat, secs as nat),
{
    let mut text = String::from_str("Current: ");
    text.append(name);
    text.append(" [");
    push_decimal(&mut text, number as u64);
    text.append("/");
    push_decimal(&mut text, total as u64);
    text.append("]\nDuration = ");
    push_duration(&mut text, secs);
    text
}

/// Computes [`seconds_of`].
pub fn whole_seconds(micros: u128) -> (secs: u64)
    ensures
        secs == seconds_of(micros as nat),
{
    let secs = micros / 1_000_000;
    if secs > u64::MAX as u128 {
        u64::MAX
    } else {
        secs as u64
    }
}

/// Computes [`capped_micros`]: a delay as the system's sleep takes it.
pub fn sleep_micros(micros: u128) -> (capped: u64)
    ensures
        capped == capped_micros(micros as nat),
{
    if micros > u64::MAX as u128 {
        u64::MAX
    } else {
        micros as u64
    }
}

} // verus!
