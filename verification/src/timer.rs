//! The clock: from ticks to microseconds, under a tempo and a playback speed.

use vstd::prelude::*;
use vstd::arithmetic::div_mod::{lemma_div_denominator, lemma_fundamental_div_mod_converse};
use vstd::arithmetic::mul::{lemma_mul_inequality, lemma_mul_upper_bound};
use vstd::arithmetic::power2::{lemma2_to64, lemma2_to64_rest, lemma_pow2_strictly_increases, lemma_pow2_unfold, pow2};
use crate::event::Event;
use crate::timeline::{transposed, Timeline, MAX_TICKS};

verus! {

/// A playback speed: the positive ratio `num / den`. One is the speed at
/// which a file was written, two plays it in half the time.
#[derive(Clone, Copy, Debug)]
pub struct Speed {
    num: u64,
    den: u64,
}

impl Speed {
    #[verifier::type_invariant]
    spec fn positive(self) -> bool {
        self.num > 0 && self.den > 0
    }

    /// Numerator of the ratio.
    pub closed spec fn num(self) -> nat {
        self.num as nat
    }

    /// Denominator of the ratio.
    pub closed spec fn den(self) -> nat {
        self.den as nat
    }

    /// The speed `num / den`, or `None` where either number is zero.
    pub fn new(num: u64, den: u64) -> (r: Option<Speed>)
        ensures
            match r {
                Some(speed) => speed.num() == num && speed.den() == den,
                None => num == 0 || den == 0,
            },
            num > 0 && den > 0 ==> r is Some,
    {
        if num == 0 || den == 0 {
            None
        } else {
            Some(Speed { num, den })
        }
    }

    /// The speed at which a file was written.
    pub fn unit() -> (speed: Speed)
        ensures
            speed.num() == 1,
            speed.den() == 1,
    {
        Speed { num: 1, den: 1 }
    }

    /// The speed that the single-precision number with the bits `bits`
    /// writes, exactly: `num / den` is the number's significand times two to
    /// its scale. There is none for a number that is not positive and finite,
    /// and none outside the scales that 64 bits hold.
    pub fn from_f32_bits(bits: u32) -> (r: Option<Speed>)
        ensures
            match r {
                Some(speed) => {
                    &&& f32_is_positive(bits)
                    &&& MIN_SCALE <= f32_scale(bits) <= MAX_SCALE
                    &&& f32_scale(bits) >= 0 ==> speed.num() == f32_significand(bits) * pow2(
                        f32_scale(bits) as nat,
                    ) && speed.den() == 1
                    &&& f32_scale(bits) < 0 ==> speed.num() == f32_significand(bits) && speed.den()
                        == pow2((-f32_scale(bits)) as nat)
                },
                None => !f32_is_positive(bits) || f32_scale(bits) < MIN_SCALE || f32_scale(bits)
                    > MAX_SCALE,
            },
    {
        let sign = bits / 0x8000_0000;
        let field = (bits / 0x80_0000) % 0x100;
        let fraction = bits % 0x80_0000;
        if sign != 0 || field == 255 {
            return None;
        }
        if field == 0 {
            // Too small for any scale that is held, whatever the fraction.
            return None;
        }
        let significand: u64 = fraction as u64 + 0x80_0000;
        let scale: i32 = field as i32 - 150;
        if scale < MIN_SCALE || scale > MAX_SCALE {
            return None;
        }
        if scale >= 0 {
            let factor = power_of_two(scale as u32);
            proof {
                lemma2_to64_rest();
                if scale < 40 {
                    lemma_pow2_strictly_increases(scale as nat, 40);
                }
                assert(0 < significand * factor <= 0xff_ffff * 0x100_0000_0000) by (nonlinear_arith)
                    requires
                        0 < significand <= 0xff_ffff,
                        0 < factor <= 0x100_0000_0000,
                ;
            }
            Some(Speed { num: significand * factor, den: 1 })
        } else {
            let divisor = power_of_two((-scale) as u32);
            Some(Speed { num: significand, den: divisor })
        }
    }

    /// The numerator, which is never zero.
    pub fn numerator(&self) -> (n: u64)
        ensures
            n == self.num(),
            n > 0,
    {
        proof {
            use_type_invariant(self);
        }
        self.num
    }

    /// The denominator, which is never zero.
    pub fn denominator(&self) -> (n: u64)
        ensures
            n == self.den(),
            n > 0,
    {
        proof {
            use_type_invariant(self);
        }
        self.den
    }
}

/// Smallest scale of a single-precision number that a [`Speed`] holds.
pub const MIN_SCALE: i32 = -63;

/// Greatest scale of a single-precision number that a [`Speed`] holds.
pub const MAX_SCALE: i32 = 40;

/// The sign bit of a single-precision number.
pub open spec fn f32_sign(bits: u32) -> nat {
    (bits / 0x8000_0000) as nat
}

/// The exponent field of a single-precision number: eight bits.
pub open spec fn f32_exponent(bits: u32) -> nat {
    ((bits / 0x80_0000) % 0x100) as nat
}

/// The fraction field of a single-precision number: 23 bits.
pub open spec fn f32_fraction(bits: u32) -> nat {
    (bits % 0x80_0000) as nat
}

/// The significand of a finite single-precision number: the fraction, with
/// the leading one that all but the smallest numbers imply.
pub open spec fn f32_significand(bits: u32) -> nat {
    if f32_exponent(bits) == 0 {
        f32_fraction(bits)
    } else {
        f32_fraction(bits) + 0x80_0000
    }
}

/// The power of two by which the significand of a finite single-precision
/// number is scaled.
pub open spec fn f32_scale(bits: u32) -> int {
    if f32_exponent(bits) == 0 {
        -149
    } else {
        f32_exponent(bits) - 150
    }
}

/// Whether the bits write a number that is finite and greater than zero.
pub open spec fn f32_is_positive(bits: u32) -> bool {
    f32_sign(bits) == 0 && f32_exponent(bits) != 255 && f32_significand(bits) > 0
}

/// Two to the power `k`.
fn power_of_two(k: u32) -> (p: u64)
    requires
        k <= 63,
    ensures
        p == pow2(k as nat),
        p > 0,
{
    let mut p: u64 = 1;
    let mut i: u32 = 0;
    proof {
        lemma2_to64();
    }
    while i < k
        invariant
            i <= k <= 63,
            p == pow2(i as nat),
            p > 0,
        decreases k - i,
    {
        proof {
            lemma_pow2_unfold((i + 1) as nat);
            lemma2_to64_rest();
            if i + 1 < 63 {
                lemma_pow2_strictly_increases((i + 1) as nat, 63);
            }
        }
        p = p * 2;
        i = i + 1;
    }
    p
}

/// Microseconds that `n_ticks` ticks take at `micros_per_beat` microseconds
/// per beat, `ticks_per_beat` ticks per beat and speed `num / den`: the exact
/// quotient, rounded down. A tempo that is still zero gives zero.
pub open spec fn delay_micros(
    micros_per_beat: nat,
    ticks_per_beat: nat,
    n_ticks: nat,
    num: nat,
    den: nat,
) -> nat {
    (micros_per_beat * n_ticks * den) / (ticks_per_beat * num)
}

/// The tempo in force once the events of `moment` have been delivered under
/// `tempo`: that of the last tempo event among them, or `tempo` itself.
pub open spec fn tempo_after(moment: Seq<Event>, tempo: u32) -> u32
    decreases moment.len(),
{
    if moment.len() == 0 {
        tempo
    } else {
        match moment.last() {
            Event::Tempo(t) => t,
            Event::Midi(_) => tempo_after(moment.drop_last(), tempo),
        }
    }
}

/// The tempo in force when tick `at` of `timeline` is reached, where play
/// began at tick 0 under `start`.
pub open spec fn tempo_at(timeline: Seq<Seq<Event>>, at: int, start: u32) -> u32
    decreases at,
{
    if at <= 0 {
        start
    } else {
        tempo_after(timeline[at - 1], tempo_at(timeline, at - 1, start))
    }
}

/// Ticks that have gone by, when tick `at` is reached, since the last moment
/// that held an event; since the start where there was none.
pub open spec fn idle_at(timeline: Seq<Seq<Event>>, at: int) -> nat
    decreases at,
{
    if at <= 0 {
        0
    } else if timeline[at - 1].len() > 0 {
        1
    } else {
        idle_at(timeline, at - 1) + 1
    }
}

/// The wait before the events of tick `at` are delivered: nothing before an
/// empty moment, and before any other the idle ticks at the tempo then in
/// force.
pub open spec fn moment_delay(
    timeline: Seq<Seq<Event>>,
    at: int,
    start: u32,
    ticks_per_beat: nat,
    num: nat,
    den: nat,
) -> nat {
    if timeline[at].len() == 0 {
        0
    } else {
        delay_micros(
            tempo_at(timeline, at, start) as nat,
            ticks_per_beat,
            idle_at(timeline, at),
            num,
            den,
        )
    }
}

/// The waits of the first `upto` ticks of `timeline`, added up in order.
pub open spec fn total_delay(
    timeline: Seq<Seq<Event>>,
    upto: int,
    start: u32,
    ticks_per_beat: nat,
    num: nat,
    den: nat,
) -> nat
    decreases upto,
{
    if upto <= 0 {
        0
    } else {
        total_delay(timeline, upto - 1, start, ticks_per_beat, num, den) + moment_delay(
            timeline,
            upto - 1,
            start,
            ticks_per_beat,
            num,
            den,
        )
    }
}

/// The clock of one track.
#[derive(Clone, Copy, Debug)]
pub struct Pausable {
    ticks_per_beat: u16,
    micros_per_beat: u32,
    speed: Speed,
}

impl Pausable {
    #[verifier::type_invariant]
    spec fn ticking(self) -> bool {
        self.ticks_per_beat > 0 && self.speed.num > 0 && self.speed.den > 0
    }

    /// Ticks per beat, fixed when the clock is made.
    pub closed spec fn ticks_per_beat(self) -> u16 {
        self.ticks_per_beat
    }

    /// The tempo in microseconds per beat; zero until one has been set.
    pub closed spec fn tempo(self) -> u32 {
        self.micros_per_beat
    }

    /// The playback speed.
    pub closed spec fn speed(self) -> Speed {
        self.speed
    }

    /// A clock of `ticks_per_beat` ticks per beat at unit speed. No tempo is
    /// set yet, so every delay is zero until the first tempo change.
    pub fn new(ticks_per_beat: u16) -> (clock: Pausable)
        requires
            ticks_per_beat > 0,
        ensures
            clock.ticks_per_beat() == ticks_per_beat,
            clock.tempo() == 0,
            clock.speed().num() == 1,
            clock.speed().den() == 1,
    {
        Pausable { ticks_per_beat, micros_per_beat: 0, speed: Speed::unit() }
    }

    /// Sets the playback speed. Tempo and ticks per beat stay.
    pub fn set_speed(&mut self, speed: Speed)
        ensures
            final(self).speed() == speed,
            final(self).tempo() == old(self).tempo(),
            final(self).ticks_per_beat() == old(self).ticks_per_beat(),
    {
        proof {
            use_type_invariant(&*self);
            use_type_invariant(&speed);
        }
        self.speed = speed;
    }

    /// Takes a tempo of `tempo` microseconds per beat. It holds for every
    /// delay asked for afterwards.
    pub fn change_tempo(&mut self, tempo: u32)
        ensures
            final(self).tempo() == tempo,
            final(self).speed() == old(self).speed(),
            final(self).ticks_per_beat() == old(self).ticks_per_beat(),
    {
        proof {
            use_type_invariant(&*self);
        }
        self.micros_per_beat = tempo;
    }

    /// Takes the tempo changes of `moment`, in order: the last of them holds
    /// afterwards.
    pub fn follow(&mut self, moment: &Vec<Event>)
        ensures
            final(self).tempo() == tempo_after(moment@, old(self).tempo()),
            final(self).speed() == old(self).speed(),
            final(self).ticks_per_beat() == old(self).ticks_per_beat(),
    {
        proof {
            use_type_invariant(&*self);
        }
        let tempo = last_tempo(moment, self.micros_per_beat);
        self.micros_per_beat = tempo;
    }

    /// The delay, in microseconds, that `n_ticks` ticks take now.
    pub fn sleep_duration(&self, n_ticks: u32) -> (micros: u128)
        ensures
            micros == delay_micros(
                self.tempo() as nat,
                self.ticks_per_beat() as nat,
                n_ticks as nat,
                self.speed().num(),
                self.speed().den(),
            ),
    {
        proof {
            use_type_invariant(self);
        }
        micros_for(self.micros_per_beat, self.ticks_per_beat, n_ticks, &self.speed)
    }

    /// The time, in microseconds, that `timeline` takes from its first tick
    /// to its last event when it is played from the clock's present tempo and
    /// at its speed: the waits before its moments, added up in order, each at
    /// the tempo that the events before it have set. The clock itself is left
    /// as it is.
    pub fn duration(&self, timeline: &Timeline) -> (micros: u128)
        ensures
            micros == total_delay(
                timeline@,
                timeline@.len() as int,
                self.tempo(),
                self.ticks_per_beat() as nat,
                self.speed().num(),
                self.speed().den(),
            ),
    {
        proof {
            use_type_invariant(self);
            use_type_invariant(&self.speed);
        }
        let n = timeline.len();
        let ghost bound: int = 0xffff_ffff * self.speed.den;
        let mut total: u128 = 0;
        let mut idle: u32 = 0;
        let mut tempo: u32 = self.micros_per_beat;
        let mut at: usize = 0;
        while at < n
            invariant
                at <= n,
                n == timeline@.len(),
                n <= MAX_TICKS,
                self.ticks_per_beat > 0,
                self.speed.num > 0,
                self.speed.den > 0,
                bound == 0xffff_ffff * self.speed.den,
                idle == idle_at(timeline@, at as int),
                tempo == tempo_at(timeline@, at as int, self.micros_per_beat),
                total == total_delay(
                    timeline@,
                    at as int,
                    self.micros_per_beat,
                    self.ticks_per_beat as nat,
                    self.speed.num as nat,
                    self.speed.den as nat,
                ),
                total + bound * idle <= bound * at,
            decreases n - at,
        {
            let moment = timeline.moment(at);
            proof {
                lemma_idle_at_most(timeline@, at as int);
                lemma_bounded_sum(bound, idle as int, at as int);
            }
            if moment.len() > 0 {
                let wait = micros_for(tempo, self.ticks_per_beat, idle, &self.speed);
                proof {
                    lemma_delay_bound(
                        tempo as nat,
                        self.ticks_per_beat as nat,
                        idle as nat,
                        self.speed.num as nat,
                        self.speed.den as nat,
                    );
                    assert(bound * at <= 0xffff_ffff * 0xffff_ffff_ffff_ffff * 0xffff_ffff)
                        by (nonlinear_arith)
                        requires
                            bound == 0xffff_ffff * self.speed.den,
                            self.speed.den <= 0xffff_ffff_ffff_ffff,
                            0 <= at <= 0xffff_ffff,
                    ;
                }
                total = total + wait;
                idle = 1;
                tempo = last_tempo(moment, tempo);
            } else {
                idle = idle + 1;
            }
            at = at + 1;
            proof {
                assert(bound * (at - 1) + bound == bound * at) by (nonlinear_arith);
                assert(bound * (idle - 1) + bound == bound * idle) by (nonlinear_arith);
            }
        }
        total
    }
}

/// Computes [`delay_micros`] in 128 bits, which hold every product in it.
fn micros_for(micros_per_beat: u32, ticks_per_beat: u16, n_ticks: u32, speed: &Speed) -> (micros:
    u128)
    requires
        ticks_per_beat > 0,
    ensures
        micros == delay_micros(
            micros_per_beat as nat,
            ticks_per_beat as nat,
            n_ticks as nat,
            speed.num(),
            speed.den(),
        ),
{
    proof {
        use_type_invariant(speed);
    }
    let beat: u128 = micros_per_beat as u128;
    let ticks: u128 = n_ticks as u128;
    let den: u128 = speed.den as u128;
    let per_beat: u128 = ticks_per_beat as u128;
    let num: u128 = speed.num as u128;
    proof {
        lemma_mul_upper_bound(beat as int, 0xffff_ffff, ticks as int, 0xffff_ffff);
        lemma_mul_upper_bound(
            beat * ticks,
            0xffff_ffff * 0xffff_ffffint,
            den as int,
            0xffff_ffff_ffff_ffff,
        );
        lemma_mul_upper_bound(per_beat as int, 0xffff, num as int, 0xffff_ffff_ffff_ffff);
        assert(per_beat * num > 0) by (nonlinear_arith)
            requires
                per_beat > 0,
                num > 0,
        ;
    }
    (beat * ticks * den) / (per_beat * num)
}

/// Computes [`tempo_after`]: walks the moment and keeps the last tempo seen.
pub fn last_tempo(moment: &Vec<Event>, tempo: u32) -> (r: u32)
    ensures
        r == tempo_after(moment@, tempo),
{
    let mut current = tempo;
    let mut i: usize = 0;
    while i < moment.len()
        invariant
            i <= moment@.len(),
            current == tempo_after(moment@.take(i as int), tempo),
        decreases moment@.len() - i,
    {
        proof {
            let next = moment@.take(i + 1);
            assert(next.drop_last() =~= moment@.take(i as int));
            assert(next.last() == moment@[i as int]);
        }
        match moment[i] {
            Event::Tempo(t) => {
                current = t;
            },
            Event::Midi(_) => {},
        }
        i = i + 1;
    }
    proof {
        assert(moment@.take(moment@.len() as int) =~= moment@);
    }
    current
}

/// A delay is never more than the microseconds of a beat times the ticks
/// times the speed's denominator.
proof fn lemma_delay_bound(micros_per_beat: nat, ticks_per_beat: nat, n_ticks: nat, num: nat, den: nat)
    requires
        ticks_per_beat > 0,
        num > 0,
        micros_per_beat <= 0xffff_ffff,
    ensures
        delay_micros(micros_per_beat, ticks_per_beat, n_ticks, num, den) <= 0xffff_ffff * den
            * n_ticks,
{
    let x = (micros_per_beat * n_ticks * den) as int;
    let d = (ticks_per_beat * num) as int;
    assert(d >= 1) by (nonlinear_arith)
        requires
            ticks_per_beat >= 1,
            num >= 1,
            d == ticks_per_beat * num,
    ;
    assert(x / d <= x) by (nonlinear_arith)
        requires
            x >= 0,
            d >= 1,
    ;
    assert(micros_per_beat * n_ticks * den <= 0xffff_ffff * den * n_ticks) by (nonlinear_arith)
        requires
            micros_per_beat <= 0xffff_ffff,
    ;
}

/// The idle ticks at a tick never exceed the tick's own number.
pub proof fn lemma_idle_at_most(timeline: Seq<Seq<Event>>, at: int)
    requires
        0 <= at,
    ensures
        idle_at(timeline, at) <= at,
    decreases at,
{
    if at > 0 {
        lemma_idle_at_most(timeline, at - 1);
    }
}

proof fn lemma_bounded_sum(bound: int, idle: int, at: int)
    requires
        0 <= bound,
        0 <= idle <= at,
    ensures
        bound * idle <= bound * at,
{
    lemma_mul_inequality(idle, at, bound);
    assert(idle * bound == bound * idle) by (nonlinear_arith);
    assert(at * bound == bound * at) by (nonlinear_arith);
}

/// Two fractions that are equal as ratios have the same whole part.
proof fn lemma_equal_fractions(a: int, b: int, c: int, d: int)
    requires
        0 <= a,
        0 <= c,
        0 < b,
        0 < d,
        a * d == c * b,
    ensures
        a / b == c / d,
{
    let q = a / b;
    let r = a % b;
    vstd::arithmetic::div_mod::lemma_fundamental_div_mod(a, b);
    assert(a == b * q + r);
    assert(0 <= r < b);
    let rest = c - q * d;
    assert(rest * b == r * d) by (nonlinear_arith)
        requires
            a == b * q + r,
            a * d == c * b,
            rest == c - q * d,
    ;
    assert(0 <= rest < d) by (nonlinear_arith)
        requires
            rest * b == r * d,
            0 <= r < b,
            0 < d,
            0 < b,
    ;
    lemma_fundamental_div_mod_converse(c, d, q, rest);
}

/// At twice the speed every delay is half as long, rounded down: for all
/// tempos and tick counts, and for every two speeds of which the second is
/// twice the first.
pub proof fn lemma_double_speed_halves_delay(
    micros_per_beat: nat,
    ticks_per_beat: nat,
    n_ticks: nat,
    num: nat,
    den: nat,
    fast_num: nat,
    fast_den: nat,
)
    requires
        ticks_per_beat > 0,
        num > 0,
        den > 0,
        fast_num > 0,
        fast_den > 0,
        fast_num * den == 2 * num * fast_den,
    ensures
        delay_micros(micros_per_beat, ticks_per_beat, n_ticks, fast_num, fast_den) == delay_micros(
            micros_per_beat,
            ticks_per_beat,
            n_ticks,
            num,
            den,
        ) / 2,
{
    let x = (micros_per_beat * n_ticks) as int;
    let a = x * fast_den;
    let b = (ticks_per_beat * fast_num) as int;
    let c = x * den;
    let slow = (ticks_per_beat * num) as int;
    let d = slow * 2;
    assert(0 <= x) by (nonlinear_arith)
        requires
            x == micros_per_beat * n_ticks,
    ;
    assert(0 <= a && 0 <= c) by (nonlinear_arith)
        requires
            0 <= x,
            a == x * fast_den,
            c == x * den,
    ;
    assert(0 < b && 0 < slow) by (nonlinear_arith)
        requires
            b == ticks_per_beat * fast_num,
            slow == ticks_per_beat * num,
            ticks_per_beat > 0,
            fast_num > 0,
            num > 0,
    ;
    assert(a * d == c * b) by (nonlinear_arith)
        requires
            a == x * fast_den,
            b == ticks_per_beat * fast_num,
            c == x * den,
            d == (ticks_per_beat * num) * 2,
            fast_num * den == 2 * num * fast_den,
    ;
    lemma_equal_fractions(a, b, c, d);
    lemma_div_denominator(c, slow, 2);
    assert(micros_per_beat * n_ticks * fast_den == a);
    assert(micros_per_beat * n_ticks * den == c);
}

/// The simplest case of [`lemma_double_speed_halves_delay`]: the numerator
/// doubled.
pub proof fn lemma_doubled_numerator_halves_delay(
    micros_per_beat: nat,
    ticks_per_beat: nat,
    n_ticks: nat,
    num: nat,
    den: nat,
)
    requires
        ticks_per_beat > 0,
        num > 0,
        den > 0,
    ensures
        delay_micros(micros_per_beat, ticks_per_beat, n_ticks, 2 * num, den) == delay_micros(
            micros_per_beat,
            ticks_per_beat,
            n_ticks,
            num,
            den,
        ) / 2,
{
    assert((2 * num) * den == 2 * num * den) by (nonlinear_arith);
    lemma_double_speed_halves_delay(
        micros_per_beat,
        ticks_per_beat,
        n_ticks,
        num,
        den,
        2 * num,
        den,
    );
}

/// Before the first tempo event no time goes by: with no tempo set every
/// delay is zero.
pub proof fn lemma_unset_tempo_gives_no_delay(ticks_per_beat: nat, n_ticks: nat, num: nat, den: nat)
    requires
        ticks_per_beat > 0,
        num > 0,
    ensures
        delay_micros(0, ticks_per_beat, n_ticks, num, den) == 0,
{
    assert(0 * n_ticks * den == 0) by (nonlinear_arith);
    assert(ticks_per_beat * num > 0) by (nonlinear_arith)
        requires
            ticks_per_beat > 0,
            num > 0,
    ;
}

proof fn lemma_transposed_keeps_tempo(
    moment: Seq<Event>,
    shifted: Seq<Event>,
    semitones: i8,
    clamp_to_range: bool,
    tempo: u32,
)
    requires
        shifted.len() == moment.len(),
        forall|j: int|
            0 <= j < moment.len() ==> #[trigger] shifted[j] == moment[j].transposed(
                semitones,
                clamp_to_range,
            ),
    ensures
        tempo_after(shifted, tempo) == tempo_after(moment, tempo),
    decreases moment.len(),
{
    if moment.len() > 0 {
        assert(shifted.last() == moment.last().transposed(semitones, clamp_to_range));
        lemma_transposed_keeps_tempo(
            moment.drop_last(),
            shifted.drop_last(),
            semitones,
            clamp_to_range,
            tempo,
        );
    }
}

proof fn lemma_transposed_keeps_pace(
    timeline: Seq<Seq<Event>>,
    semitones: i8,
    clamp_to_range: bool,
    at: int,
    start: u32,
)
    requires
        0 <= at <= timeline.len(),
    ensures
        tempo_at(transposed(timeline, semitones, clamp_to_range), at, start) == tempo_at(
            timeline,
            at,
            start,
        ),
        idle_at(transposed(timeline, semitones, clamp_to_range), at) == idle_at(timeline, at),
    decreases at,
{
    if at > 0 {
        lemma_transposed_keeps_pace(timeline, semitones, clamp_to_range, at - 1, start);
        lemma_transposed_keeps_tempo(
            timeline[at - 1],
            transposed(timeline, semitones, clamp_to_range)[at - 1],
            semitones,
            clamp_to_range,
            tempo_at(timeline, at - 1, start),
        );
    }
}

/// Transposing changes no wait: a timeline takes the same time before and
/// after, under every tempo, speed and number of ticks per beat.
pub proof fn lemma_transposed_keeps_time(
    timeline: Seq<Seq<Event>>,
    semitones: i8,
    clamp_to_range: bool,
    upto: int,
    start: u32,
    ticks_per_beat: nat,
    num: nat,
    den: nat,
)
    requires
        0 <= upto <= timeline.len(),
    ensures
        total_delay(
            transposed(timeline, semitones, clamp_to_range),
            upto,
            start,
            ticks_per_beat,
            num,
            den,
        ) == total_delay(timeline, upto, start, ticks_per_beat, num, den),
    decreases upto,
{
    if upto > 0 {
        lemma_transposed_keeps_time(
            timeline,
            semitones,
            clamp_to_range,
            upto - 1,
            start,
            ticks_per_beat,
            num,
            den,
        );
        lemma_transposed_keeps_pace(timeline, semitones, clamp_to_range, upto - 1, start);
    }
}

} // verus!
