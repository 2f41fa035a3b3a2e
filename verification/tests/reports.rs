use debug_led::reports::{Binary, Blink, SmallBinary, Unary};
use debug_led::{Actuator, DebugLed, DebugReport, Delay, DEFAULT_TIMINGS};
use embedded_hal::blocking::delay::DelayMs;
use std::cell::RefCell;
use std::rc::Rc;

/// What the fake hardware saw, in order.
#[derive(Clone, Copy, Debug, PartialEq, Eq)]
enum Seen {
    Output(bool),
    Wait(u32),
}

struct FakeDelay {
    log: Rc<RefCell<Vec<Seen>>>,
}

impl DelayMs<u32> for FakeDelay {
    fn delay_ms(&mut self, ms: u32) {
        self.log.borrow_mut().push(Seen::Wait(ms));
    }
}

/// Four distinct durations, so that a mix-up of two of them shows.
const ODD_TIMINGS: (u32, u32, u32, u32) = (7, 11, 13, 17);

/// Runs `report` once on fake hardware that accepts every command, and hands
/// back the result together with everything the hardware saw.
fn run_once<R: DebugReport>(
    report: &R,
    timings: (u32, u32, u32, u32),
) -> (Result<(), ()>, Vec<Seen>) {
    let log = Rc::new(RefCell::new(Vec::new()));
    let mut delay = FakeDelay { log: log.clone() };
    let set_log = log.clone();
    let mut set = move |on: bool| -> Result<(), ()> {
        set_log.borrow_mut().push(Seen::Output(on));
        Ok(())
    };
    let mut del = DebugLed::new(timings, None, None, Actuator(&mut set), Delay(&mut delay));
    let result = del.try_report_once(report);
    let seen = log.borrow().clone();
    (result, seen)
}

/// The pulses with the given on-durations, each followed by `off`.
fn pulses(durations: &[u32], off: u32) -> Vec<Seen> {
    let mut steps = Vec::new();
    for on in durations {
        steps.push(Seen::Output(true));
        steps.push(Seen::Wait(*on));
        steps.push(Seen::Output(false));
        steps.push(Seen::Wait(off));
    }
    steps
}

/// The on-durations of the lowest `width` bits of `value`, least significant
/// first: `short` for a set bit, `long` for a clear one.
fn bit_durations(value: u16, width: u32, short: u32, long: u32) -> Vec<u32> {
    (0..width)
        .map(|index| if (value >> index) & 1 == 1 { short } else { long })
        .collect()
}

#[test]
fn default_timings_are_the_documented_ones() {
    assert_eq!(DEFAULT_TIMINGS, (1000, 500, 500, 1000));
}

#[test]
fn blink_once_is_one_short_pulse() {
    let (result, seen) = run_once(&Blink, DEFAULT_TIMINGS);
    assert_eq!(result, Ok(()));
    assert_eq!(
        seen,
        vec![Seen::Output(true), Seen::Wait(500), Seen::Output(false), Seen::Wait(500)]
    );
}

#[test]
fn blink_uses_short_on_and_off() {
    let (result, seen) = run_once(&Blink, ODD_TIMINGS);
    assert_eq!(result, Ok(()));
    assert_eq!(
        seen,
        vec![Seen::Output(true), Seen::Wait(13), Seen::Output(false), Seen::Wait(11)]
    );
}

#[test]
fn unary_three_once() {
    let (result, seen) = run_once(&Unary(3), ODD_TIMINGS);
    assert_eq!(result, Ok(()));
    assert_eq!(seen, pulses(&[13, 13, 13], 11));
}

#[test]
fn unary_zero_once_is_silent() {
    let (result, seen) = run_once(&Unary(0), DEFAULT_TIMINGS);
    assert_eq!(result, Ok(()));
    assert_eq!(seen, Vec::new());
}

#[test]
fn unary_emits_count_short_pulses_for_every_count() {
    for count in 0..=u8::MAX {
        let (result, seen) = run_once(&Unary(count), ODD_TIMINGS);
        assert_eq!(result, Ok(()));
        assert_eq!(seen.len(), 4 * count as usize);
        assert_eq!(seen, pulses(&vec![13; count as usize], 11));
        assert!(!seen.contains(&Seen::Wait(7)));
    }
}

#[test]
fn binary_five_once() {
    let (result, seen) = run_once(&Binary(5), (1000, 500, 500, 1000));
    assert_eq!(result, Ok(()));
    let durations = [
        500, 1000, 500, 1000, 1000, 1000, 1000, 1000, 1000, 1000, 1000, 1000, 1000, 1000, 1000,
        1000,
    ];
    assert_eq!(seen, pulses(&durations, 500));
    assert!(!seen.is_empty());
    assert_eq!(seen.last(), Some(&Seen::Wait(500)));
}

#[test]
fn binary_zero_is_sixteen_long_pulses() {
    let (result, seen) = run_once(&Binary(0), ODD_TIMINGS);
    assert_eq!(result, Ok(()));
    assert_eq!(seen, pulses(&[17; 16], 11));
}

#[test]
fn binary_all_ones_is_sixteen_short_pulses() {
    let (result, seen) = run_once(&Binary(u16::MAX), ODD_TIMINGS);
    assert_eq!(result, Ok(()));
    assert_eq!(seen, pulses(&[13; 16], 11));
}

#[test]
fn binary_top_bit_comes_last() {
    let (result, seen) = run_once(&Binary(0x8000), ODD_TIMINGS);
    assert_eq!(result, Ok(()));
    let mut durations = vec![17; 15];
    durations.push(13);
    assert_eq!(seen, pulses(&durations, 11));
}

#[test]
fn binary_is_sixteen_pulses_telling_each_bit() {
    for value in (0..=u16::MAX).step_by(251).chain([1, 2, 0x00ff, 0xa5a5, 0xfffe, u16::MAX]) {
        let (result, seen) = run_once(&Binary(value), ODD_TIMINGS);
        assert_eq!(result, Ok(()));
        assert_eq!(seen.len(), 64);
        assert_eq!(seen, pulses(&bit_durations(value, 16, 13, 17), 11));
        for index in 0..16 {
            let short = seen[4 * index + 1] == Seen::Wait(13);
            assert_eq!(short, (value >> index) & 1 == 1);
        }
    }
}

#[test]
fn small_binary_zero_once() {
    let (result, seen) = run_once(&SmallBinary(0), (1000, 500, 500, 1000));
    assert_eq!(result, Ok(()));
    assert_eq!(
        seen,
        vec![Seen::Output(true), Seen::Wait(1000), Seen::Output(false), Seen::Wait(500)]
    );
}

#[test]
fn small_binary_one_is_one_short_pulse() {
    let (result, seen) = run_once(&SmallBinary(1), ODD_TIMINGS);
    assert_eq!(result, Ok(()));
    assert_eq!(seen, pulses(&[13], 11));
}

#[test]
fn small_binary_six_is_three_pulses() {
    let (result, seen) = run_once(&SmallBinary(6), ODD_TIMINGS);
    assert_eq!(result, Ok(()));
    assert_eq!(seen, pulses(&[17, 13, 13], 11));
}

#[test]
fn small_binary_top_bit_needs_full_width() {
    let (result, seen) = run_once(&SmallBinary(0x8000), ODD_TIMINGS);
    assert_eq!(result, Ok(()));
    let mut durations = vec![17; 15];
    durations.push(13);
    assert_eq!(seen, pulses(&durations, 11));
}

#[test]
fn small_binary_is_binary_cut_after_highest_set_bit() {
    for value in 1..=u16::MAX {
        let width = 16 - value.leading_zeros();
        assert_eq!(width, value.ilog2() + 1);
        let (result, seen) = run_once(&SmallBinary(value), ODD_TIMINGS);
        assert_eq!(result, Ok(()));
        assert_eq!(seen.len(), 4 * width as usize);
        assert_eq!(seen, pulses(&bit_durations(value, width, 13, 17), 11));
        assert_eq!(seen[seen.len() - 3], Seen::Wait(13));
    }
}

#[test]
fn small_binary_matches_the_first_pulses_of_binary() {
    for value in [1u16, 2, 3, 5, 6, 0x0100, 0x1234, 0x7fff, 0x8001, u16::MAX] {
        let (_, small) = run_once(&SmallBinary(value), ODD_TIMINGS);
        let (_, full) = run_once(&Binary(value), ODD_TIMINGS);
        assert_eq!(full.len(), 64);
        assert_eq!(small[..], full[..small.len()]);
        assert!(full[small.len()..].iter().all(|seen| *seen != Seen::Wait(13)));
    }
}

#[test]
fn reporting_once_twice_gives_the_same_sequence_twice() {
    let log = Rc::new(RefCell::new(Vec::new()));
    let mut delay = FakeDelay { log: log.clone() };
    let set_log = log.clone();
    let mut set = move |on: bool| -> Result<(), ()> {
        set_log.borrow_mut().push(Seen::Output(on));
        Ok(())
    };
    let mut del = DebugLed::new(ODD_TIMINGS, None, None, Actuator(&mut set), Delay(&mut delay));
    assert_eq!(del.try_report_once(&SmallBinary(0x2c)), Ok(()));
    let first = log.borrow().clone();
    assert_eq!(del.try_report_once(&SmallBinary(0x2c)), Ok(()));
    let both = log.borrow().clone();
    assert_eq!(first, pulses(&[17, 17, 13, 13, 17, 13], 11));
    assert_eq!(both.len(), 2 * first.len());
    assert_eq!(both[..first.len()], first[..]);
    assert_eq!(both[first.len()..], first[..]);
    assert_eq!(del.timings(), ODD_TIMINGS);
}

#[test]
fn emit_once_drives_the_same_sequence_as_try_report_once() {
    let log = Rc::new(RefCell::new(Vec::new()));
    let mut delay = FakeDelay { log: log.clone() };
    let set_log = log.clone();
    let mut set = move |on: bool| -> Result<(), ()> {
        set_log.borrow_mut().push(Seen::Output(on));
        Ok(())
    };
    let mut del = DebugLed::new(ODD_TIMINGS, None, None, Actuator(&mut set), Delay(&mut delay));
    assert_eq!(Binary(0x1234).emit_once(&mut del), Ok(()));
    let seen = log.borrow().clone();
    assert_eq!(seen, run_once(&Binary(0x1234), ODD_TIMINGS).1);
}

#[test]
fn a_single_pulse_is_on_hold_off_hold() {
    let log = Rc::new(RefCell::new(Vec::new()));
    let mut delay = FakeDelay { log: log.clone() };
    let set_log = log.clone();
    let mut set = move |on: bool| -> Result<(), ()> {
        set_log.borrow_mut().push(Seen::Output(on));
        Ok(())
    };
    let mut del = DebugLed::new(ODD_TIMINGS, None, None, Actuator(&mut set), Delay(&mut delay));
    assert_eq!(del.emit_pulse(42), Ok(()));
    assert_eq!(del.drive(true), Ok(()));
    del.pause(3);
    let seen = log.borrow().clone();
    assert_eq!(
        seen,
        vec![
            Seen::Output(true),
            Seen::Wait(42),
            Seen::Output(false),
            Seen::Wait(11),
            Seen::Output(true),
            Seen::Wait(3)
        ]
    );
}
