use nodi::timers::Ticker;
use nodi::Timer;
use plmidi::event::{Event, MidiEvent, MidiMessage};
use plmidi::timeline::Timeline;
use plmidi::timer::{last_tempo, Pausable, Speed};

fn note(key: i16) -> Event {
    Event::Midi(MidiEvent { channel: 1, message: MidiMessage::NoteOn { key, vel: 100 } })
}

#[test]
fn delay_is_zero_until_a_tempo_is_set() {
    let clock = Pausable::new(480);
    assert_eq!(clock.sleep_duration(0), 0);
    assert_eq!(clock.sleep_duration(1), 0);
    assert_eq!(clock.sleep_duration(u32::MAX), 0);
}

#[test]
fn delay_is_tempo_times_ticks_over_ticks_per_beat() {
    let mut clock = Pausable::new(480);
    clock.change_tempo(500_000);
    assert_eq!(clock.sleep_duration(480), 500_000);
    assert_eq!(clock.sleep_duration(1), 1041); // 1041.66.. rounded down
    assert_eq!(clock.sleep_duration(0), 0);
    assert_eq!(clock.sleep_duration(960), 1_000_000);
}

#[test]
fn delay_is_divided_by_the_speed_and_rounded_down() {
    let mut clock = Pausable::new(96);
    clock.change_tempo(600_000);
    clock.set_speed(Speed::new(3, 2).unwrap());
    // 600000 * 10 / 96 / 1.5 = 41666.66..
    assert_eq!(clock.sleep_duration(10), 41_666);
    clock.set_speed(Speed::new(1, 4).unwrap());
    assert_eq!(clock.sleep_duration(10), 250_000);
}

#[test]
fn doubling_the_speed_halves_every_delay() {
    let mut slow = Pausable::new(97);
    let mut fast = Pausable::new(97);
    slow.set_speed(Speed::new(7, 5).unwrap());
    fast.set_speed(Speed::new(14, 5).unwrap());
    for tempo in [1u32, 333_333, 500_000, 16_777_215, u32::MAX] {
        slow.change_tempo(tempo);
        fast.change_tempo(tempo);
        for ticks in [0u32, 1, 2, 95, 96, 97, 1000, 123_456, u32::MAX] {
            assert_eq!(fast.sleep_duration(ticks), slow.sleep_duration(ticks) / 2);
        }
    }
    // the same ratio written otherwise: 28/10 is twice 7/5
    let mut other = Pausable::new(97);
    other.set_speed(Speed::new(28, 10).unwrap());
    other.change_tempo(500_000);
    slow.change_tempo(500_000);
    assert_eq!(other.sleep_duration(1001), slow.sleep_duration(1001) / 2);
}

#[test]
fn largest_delay_is_exact() {
    let mut clock = Pausable::new(1);
    clock.change_tempo(u32::MAX);
    clock.set_speed(Speed::new(1, u64::MAX).unwrap());
    let expected = (u32::MAX as u128) * (u32::MAX as u128) * (u64::MAX as u128);
    assert_eq!(clock.sleep_duration(u32::MAX), expected);
}

#[test]
fn tempo_change_holds_for_later_delays_only() {
    let mut clock = Pausable::new(100);
    clock.change_tempo(1_000_000);
    let before = clock.sleep_duration(50);
    clock.change_tempo(2_000_000);
    assert_eq!(before, 500_000);
    assert_eq!(clock.sleep_duration(50), 1_000_000);
}

#[test]
fn speed_is_a_positive_ratio() {
    assert!(Speed::new(0, 1).is_none());
    assert!(Speed::new(1, 0).is_none());
    assert!(Speed::new(0, 0).is_none());
    let speed = Speed::new(3, 4).unwrap();
    assert_eq!(speed.numerator(), 3);
    assert_eq!(speed.denominator(), 4);
    assert_eq!(Speed::unit().numerator(), 1);
    assert_eq!(Speed::unit().denominator(), 1);
}

#[test]
fn last_tempo_of_a_moment_wins() {
    assert_eq!(last_tempo(&vec![], 7), 7);
    assert_eq!(last_tempo(&vec![note(1)], 7), 7);
    assert_eq!(last_tempo(&vec![Event::Tempo(3), note(1), Event::Tempo(5), note(2)], 7), 5);
    let mut clock = Pausable::new(10);
    clock.follow(&vec![Event::Tempo(100), Event::Tempo(200)]);
    assert_eq!(clock.sleep_duration(10), 200);
    clock.follow(&vec![note(1)]);
    assert_eq!(clock.sleep_duration(10), 200);
}

fn sample() -> Timeline {
    Timeline::from_moments(vec![
        vec![note(60)],
        vec![],
        vec![Event::Tempo(480_000)],
        vec![],
        vec![],
        vec![note(62), Event::Tempo(960_000)],
        vec![note(64)],
        vec![],
    ])
    .unwrap()
}

#[test]
fn duration_is_the_sum_of_the_delays_in_event_order() {
    let timeline = sample();
    let clock = Pausable::new(48);
    // By hand: the clock of a player, asked for each wait in turn.
    let mut player = Pausable::new(48);
    let mut idle: u32 = 0;
    let mut sum: u128 = 0;
    for moment in timeline.moments() {
        if !moment.is_empty() {
            sum += player.sleep_duration(idle);
            idle = 0;
            player.follow(moment);
        }
        idle += 1;
    }
    assert_eq!(clock.duration(&timeline), sum);
    // before tick 0 and tick 2 no tempo is set; 3 ticks at 10 000 us, 1 at 20 000 us
    assert_eq!(sum, 30_000 + 20_000);
}

#[test]
fn duration_leaves_the_clock_alone() {
    let timeline = sample();
    let mut clock = Pausable::new(48);
    clock.change_tempo(240_000);
    let first = clock.duration(&timeline);
    let second = clock.duration(&timeline);
    assert_eq!(first, second);
    // the clock's own tempo still holds: 2 ticks at 5 000 us come first
    assert_eq!(first, 10_000 + 30_000 + 20_000);
    assert_eq!(clock.sleep_duration(48), 240_000);
}

#[test]
fn duration_of_nothing_is_zero() {
    let clock = Pausable::new(48);
    assert_eq!(clock.duration(&Timeline::new()), 0);
    let silent = Timeline::from_moments(vec![vec![], vec![], vec![]]).unwrap();
    let mut ticking = Pausable::new(48);
    ticking.change_tempo(500_000);
    assert_eq!(ticking.duration(&silent), 0);
}

#[test]
fn duration_follows_the_speed() {
    let timeline = sample();
    let mut clock = Pausable::new(48);
    clock.set_speed(Speed::new(2, 1).unwrap());
    assert_eq!(clock.duration(&timeline), 15_000 + 10_000);
}

#[test]
fn speed_of_a_single_precision_number_is_exact() {
    for value in [1.0f32, 1.5, 0.5, 2.0, 0.1, 0.75, 3.14159, 1e-5, 1e-12, 1000.0, 1e12, 16_777_215.0] {
        let speed = Speed::from_f32_bits(value.to_bits()).unwrap();
        let ratio = speed.numerator() as f64 / speed.denominator() as f64;
        assert_eq!(ratio, value as f64, "{}", value);
    }
    let one = Speed::from_f32_bits(1.0f32.to_bits()).unwrap();
    assert_eq!((one.numerator(), one.denominator()), (1 << 23, 1 << 23));
    let three = Speed::from_f32_bits(3.0f32.to_bits()).unwrap();
    assert_eq!((three.numerator(), three.denominator()), (3 << 22, 1 << 22));
    let large = Speed::from_f32_bits(33_554_432.0f32.to_bits()).unwrap();
    assert_eq!((large.numerator(), large.denominator()), (1 << 25, 1));
    let least = Speed::from_f32_bits((2.0f32).powi(-40).to_bits()).unwrap();
    assert_eq!((least.numerator(), least.denominator()), (1 << 23, 1 << 63));
    let most = Speed::from_f32_bits((2.0f32).powi(63).to_bits()).unwrap();
    assert_eq!((most.numerator(), most.denominator()), (1 << 63, 1));
}

#[test]
fn speed_needs_a_positive_finite_number_within_reach() {
    for value in [
        0.0f32,
        -0.0,
        -1.0,
        f32::INFINITY,
        f32::NEG_INFINITY,
        f32::NAN,
        f32::MIN_POSITIVE,
        f32::MAX,
        1e-30,
        1e30,
        1e-45,
    ] {
        assert!(Speed::from_f32_bits(value.to_bits()).is_none(), "{}", value);
    }
    assert!(Speed::from_f32_bits((2.0f32).powi(-41).to_bits()).is_none());
    assert!(Speed::from_f32_bits((2.0f32).powi(64).to_bits()).is_none());
}

#[test]
fn delay_at_a_speed_read_from_a_number() {
    let mut clock = Pausable::new(480);
    clock.change_tempo(500_000);
    clock.set_speed(Speed::from_f32_bits(1.25f32.to_bits()).unwrap());
    assert_eq!(clock.sleep_duration(480), 400_000);
    clock.set_speed(Speed::from_f32_bits(0.5f32.to_bits()).unwrap());
    assert_eq!(clock.sleep_duration(480), 1_000_000);
}

#[test]
fn delays_agree_with_the_ticker_of_nodi() {
    // The ticker computes in floating point, this clock exactly: the two may
    // differ by the rounding of one microsecond, and by no more.
    for tpb in [1u16, 24, 96, 480, 960, 32767] {
        for tempo in [1u32, 250_000, 500_000, 600_000, 1_000_000, 16_777_215] {
            for value in [0.25f32, 0.5, 1.0, 1.5, 2.0, 3.0, 0.1, 1.1] {
                let mut theirs = Ticker::new(tpb);
                theirs.speed = value;
                theirs.change_tempo(tempo);
                let mut ours = Pausable::new(tpb);
                ours.set_speed(Speed::from_f32_bits(value.to_bits()).unwrap());
                ours.change_tempo(tempo);
                for ticks in [0u32, 1, 2, 3, 10, 95, 96, 97, 479, 480, 10_000, 1_000_000] {
                    let expected = theirs.sleep_duration_without_readjustment(ticks).as_micros();
                    let got = ours.sleep_duration(ticks);
                    assert!(got.abs_diff(expected) <= 1, "{tpb} {tempo} {value} {ticks}");
                }
            }
        }
    }
}
