use debug_led::reports::{Binary, Blink, SmallBinary, Unary};
use debug_led::{Actuator, DebugLed, DebugReport, Delay, ReportHook};
use embedded_hal::blocking::delay::DelayMs;
use std::cell::RefCell;
use std::rc::Rc;

/// What the fake hardware and hooks saw, in order.
#[derive(Clone, Copy, Debug, PartialEq, Eq)]
enum Seen {
    Output(bool),
    Wait(u32),
    Hook,
}

struct FakeDelay {
    log: Rc<RefCell<Vec<Seen>>>,
}

impl DelayMs<u32> for FakeDelay {
    fn delay_ms(&mut self, ms: u32) {
        self.log.borrow_mut().push(Seen::Wait(ms));
    }
}

const ODD_TIMINGS: (u32, u32, u32, u32) = (7, 11, 13, 17);

/// Runs `count` cycles of `report` on fake hardware that accepts every
/// command, without an on-report hook.
fn run_cycles<R: DebugReport>(
    report: &R,
    timings: (u32, u32, u32, u32),
    count: u64,
) -> (Result<(), ()>, Vec<Seen>) {
    let log = Rc::new(RefCell::new(Vec::new()));
    let mut delay = FakeDelay { log: log.clone() };
    let set_log = log.clone();
    let mut set = move |on: bool| -> Result<(), ()> {
        set_log.borrow_mut().push(Seen::Output(on));
        Ok(())
    };
    let mut del = DebugLed::new(timings, None, None, Actuator(&mut set), Delay(&mut delay));
    let result = del.try_report_cycles(report, count);
    let seen = log.borrow().clone();
    (result, seen)
}

/// Runs `report` once on the same kind of fake hardware.
fn run_once<R: DebugReport>(report: &R, timings: (u32, u32, u32, u32)) -> Vec<Seen> {
    let log = Rc::new(RefCell::new(Vec::new()));
    let mut delay = FakeDelay { log: log.clone() };
    let set_log = log.clone();
    let mut set = move |on: bool| -> Result<(), ()> {
        set_log.borrow_mut().push(Seen::Output(on));
        Ok(())
    };
    let mut del = DebugLed::new(timings, None, None, Actuator(&mut set), Delay(&mut delay));
    assert_eq!(del.try_report_once(report), Ok(()));
    let seen = log.borrow().clone();
    seen
}

#[test]
fn unary_zero_for_three_cycles_is_three_gaps() {
    let (result, seen) = run_cycles(&Unary(0), (1000, 500, 500, 1000), 3);
    assert_eq!(result, Ok(()));
    assert_eq!(seen, vec![Seen::Wait(1000), Seen::Wait(1000), Seen::Wait(1000)]);
}

#[test]
fn no_cycles_do_nothing() {
    let (result, seen) = run_cycles(&Binary(0xbeef), ODD_TIMINGS, 0);
    assert_eq!(result, Ok(()));
    assert_eq!(seen, Vec::new());
}

#[test]
fn one_cycle_is_once_and_a_gap() {
    let (result, seen) = run_cycles(&Unary(2), ODD_TIMINGS, 1);
    assert_eq!(result, Ok(()));
    assert_eq!(
        seen,
        vec![
            Seen::Output(true),
            Seen::Wait(13),
            Seen::Output(false),
            Seen::Wait(11),
            Seen::Output(true),
            Seen::Wait(13),
            Seen::Output(false),
            Seen::Wait(11),
            Seen::Wait(7),
        ]
    );
}

#[test]
fn blink_cycles_are_separated_by_the_gap() {
    let (result, seen) = run_cycles(&Blink, ODD_TIMINGS, 2);
    assert_eq!(result, Ok(()));
    assert_eq!(
        seen,
        vec![
            Seen::Output(true),
            Seen::Wait(13),
            Seen::Output(false),
            Seen::Wait(11),
            Seen::Wait(7),
            Seen::Output(true),
            Seen::Wait(13),
            Seen::Output(false),
            Seen::Wait(11),
            Seen::Wait(7),
        ]
    );
}

#[test]
fn cycles_repeat_the_once_sequence_with_a_gap_after_each() {
    for count in [1u64, 2, 5, 40] {
        let once = run_once(&SmallBinary(0x0169), ODD_TIMINGS);
        assert_eq!(once.len(), 4 * 9);
        let (result, seen) = run_cycles(&SmallBinary(0x0169), ODD_TIMINGS, count);
        assert_eq!(result, Ok(()));
        let mut expected = Vec::new();
        for _ in 0..count {
            expected.extend_from_slice(&once);
            expected.push(Seen::Wait(7));
        }
        assert_eq!(seen, expected);
    }
}

#[test]
fn more_cycles_only_add_to_fewer_cycles() {
    let (_, fewer) = run_cycles(&Binary(0x00f0), ODD_TIMINGS, 3);
    let (_, more) = run_cycles(&Binary(0x00f0), ODD_TIMINGS, 4);
    assert_eq!(fewer.len(), 3 * 65);
    assert_eq!(more.len(), 4 * 65);
    assert_eq!(more[..fewer.len()], fewer[..]);
}

#[test]
fn emit_cycles_does_not_call_the_hook() {
    let log = Rc::new(RefCell::new(Vec::new()));
    let mut delay = FakeDelay { log: log.clone() };
    let set_log = log.clone();
    let mut set = move |on: bool| -> Result<(), ()> {
        set_log.borrow_mut().push(Seen::Output(on));
        Ok(())
    };
    let hook_log = log.clone();
    let mut hook = move |_: &dyn DebugReport| hook_log.borrow_mut().push(Seen::Hook);
    let mut del = DebugLed::new(
        ODD_TIMINGS,
        None,
        Some(ReportHook(&mut hook)),
        Actuator(&mut set),
        Delay(&mut delay),
    );
    assert_eq!(del.emit_cycles(&Unary(0), 2), Ok(()));
    let seen = log.borrow().clone();
    assert_eq!(seen, vec![Seen::Wait(7), Seen::Wait(7)]);
}

#[test]
fn try_report_cycles_calls_the_hook_once_before_the_first_cycle() {
    let log = Rc::new(RefCell::new(Vec::new()));
    let mut delay = FakeDelay { log: log.clone() };
    let set_log = log.clone();
    let mut set = move |on: bool| -> Result<(), ()> {
        set_log.borrow_mut().push(Seen::Output(on));
        Ok(())
    };
    let hook_log = log.clone();
    let mut hook = move |_: &dyn DebugReport| hook_log.borrow_mut().push(Seen::Hook);
    let mut del = DebugLed::new(
        ODD_TIMINGS,
        None,
        Some(ReportHook(&mut hook)),
        Actuator(&mut set),
        Delay(&mut delay),
    );
    assert_eq!(del.try_report_cycles(&Unary(1), 2), Ok(()));
    let seen = log.borrow().clone();
    assert_eq!(
        seen,
        vec![
            Seen::Hook,
            Seen::Output(true),
            Seen::Wait(13),
            Seen::Output(false),
            Seen::Wait(11),
            Seen::Wait(7),
            Seen::Output(true),
            Seen::Wait(13),
            Seen::Output(false),
            Seen::Wait(11),
            Seen::Wait(7),
        ]
    );
}

#[test]
fn a_refused_command_ends_the_cycles() {
    let log = Rc::new(RefCell::new(Vec::new()));
    let mut delay = FakeDelay { log: log.clone() };
    let set_log = log.clone();
    let mut calls = 0;
    let mut set = move |on: bool| -> Result<(), ()> {
        set_log.borrow_mut().push(Seen::Output(on));
        calls += 1;
        if calls == 6 {
            Err(())
        } else {
            Ok(())
        }
    };
    let mut del = DebugLed::new(ODD_TIMINGS, None, None, Actuator(&mut set), Delay(&mut delay));
    assert_eq!(del.emit_cycles(&Unary(2), 1000), Err(()));
    let seen = log.borrow().clone();
    assert_eq!(
        seen,
        vec![
            Seen::Output(true),
            Seen::Wait(13),
            Seen::Output(false),
            Seen::Wait(11),
            Seen::Output(true),
            Seen::Wait(13),
            Seen::Output(false),
            Seen::Wait(11),
            Seen::Wait(7),
            Seen::Output(true),
            Seen::Wait(13),
            Seen::Output(false),
        ]
    );
}
