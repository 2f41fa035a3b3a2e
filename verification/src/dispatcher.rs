//! The dispatcher: timing profile, borrowed hardware and hooks, and the
//! operations that drive a report through them.
//!
//! Every operation says what it did in terms of the dispatcher's history:
//! which commands it issued, in which order, and which of them the actuator
//! refused. The history can be extended in this file only. `drive` and
//! `pause` are the only operations that touch the hardware, and each records
//! its command as it issues it; the two hook operations do the same for the
//! hooks. Everything else, here and in other files, is built from them, so
//! that a contract over the history can be met in no other way than by
//! issuing the commands it speaks of.

use crate::hardware::{delay_ms, observe, print, set_status};
use crate::hardware::{Actuator, Delay, PrintHook, ReportHook};
use crate::signal::{answered, completed, cycles, outcome, pulse, pulse_train, refused_at};
use crate::signal::{Event, Step};
use crate::signal::{lemma_cycles_partial, lemma_cycles_unfold};
use crate::signal::{lemma_outcome_chain, lemma_outcome_refused_early, lemma_refusal_halts};
use crate::signal::{lemma_pulse_train_len, lemma_pulse_train_push, lemma_pulse_train_take};
use crate::timing::{off, repeat_gap, Timings};
use core::fmt::Debug;
use vstd::prelude::*;

verus! {

/// Owns the timing profile and holds the borrowed actuator, delay provider
/// and optional hooks for as long as reports are to be signalled.
///
/// The borrowed capabilities are single-owner: nothing else may use them
/// while the dispatcher holds them.
pub struct DebugLed<'a, 'b, 'c> {
    /// Timing fields are `(repeat_gap, off, short_on, long_on)`.
    timings: Timings,
    /// Called with diagnostic values when a failure is announced.
    debug_print: Option<PrintHook<'c>>,
    /// Called with every report just before its sequence begins.
    on_report: Option<ReportHook<'c>>,
    /// The binary output.
    set_status: Actuator<'a>,
    /// The delay provider.
    delay: Delay<'b>,
    /// Everything this dispatcher has done so far, oldest first. It exists
    /// for the proofs only and takes no room in the compiled program.
    history: Ghost<Seq<Event>>,
}

/// A kind of report: a value that knows the step sequence that signals it.
///
/// A new kind of report defines its steps in `once_steps` and drives them in
/// `emit_once`, with `DebugLed::emit_pulse`, `DebugLed::drive` and
/// `DebugLed::pause`; the dispatcher's reporting operations then work for it
/// as they do for the built-in kinds.
pub trait DebugReport {
    /// The steps of one cycle of this report under `timings`.
    spec fn once_steps(&self, timings: Timings) -> Seq<Step>;

    /// Drives one cycle of this report through the dispatcher's hardware.
    ///
    /// Returns `Err` as soon as the actuator refuses a command, and attempts
    /// nothing after that command.
    fn emit_once(&self, del: &mut DebugLed) -> (result: Result<(), ()>)
        ensures
            DebugLed::drove(*old(del), *final(del), self.once_steps(old(del).timings()), result),
    ;
}

impl<'a, 'b, 'c> DebugLed<'a, 'b, 'c> {
    /// The timing profile, fixed when the dispatcher is made.
    pub closed spec fn spec_timings(&self) -> Timings {
        self.timings
    }

    /// The timing profile.
    #[verifier::when_used_as_spec(spec_timings)]
    pub fn timings(&self) -> (timings: Timings)
        ensures
            timings == self.timings(),
    {
        self.timings
    }

    /// The print hook, if one was given when the dispatcher was made.
    pub closed spec fn print_hook(&self) -> Option<PrintHook<'c>> {
        self.debug_print
    }

    /// The on-report hook, if one was given when the dispatcher was made.
    pub closed spec fn report_hook(&self) -> Option<ReportHook<'c>> {
        self.on_report
    }

    /// The binary output.
    pub closed spec fn actuator(&self) -> Actuator<'a> {
        self.set_status
    }

    /// The delay provider.
    pub closed spec fn delay_provider(&self) -> Delay<'b> {
        self.delay
    }

    /// Whether there is a print hook.
    pub open spec fn has_print_hook(&self) -> bool {
        self.print_hook() is Some
    }

    /// Whether there is an on-report hook.
    pub open spec fn has_report_hook(&self) -> bool {
        self.report_hook() is Some
    }

    /// Everything this dispatcher has done so far, oldest first: every
    /// command it issued with the answer to it, and every call of a hook.
    pub closed spec fn history(&self) -> Seq<Event> {
        self.history@
    }

    /// `self` has the timing profile of `other`, and each hook is present in
    /// one exactly when it is present in the other.
    pub open spec fn same_setup(self, other: Self) -> bool {
        &&& self.timings() == other.timings()
        &&& self.has_print_hook() <==> other.has_print_hook()
        &&& self.has_report_hook() <==> other.has_report_hook()
    }

    /// What handing a report with the steps `plan` to the on-report hook adds
    /// to the history: one entry if there is a hook, nothing if there is none.
    pub open spec fn observation(self, plan: Seq<Step>) -> Seq<Event> {
        if self.has_report_hook() {
            seq![Event::Observed(plan)]
        } else {
            Seq::empty()
        }
    }

    /// What handing the values behind `events` to the print hook adds to the
    /// history: all of them if there is a hook, nothing if there is none.
    pub open spec fn printing(self, events: Seq<Event>) -> Seq<Event> {
        if self.has_print_hook() {
            events
        } else {
            Seq::empty()
        }
    }

    /// `after` is `before` with exactly `events` added to its history.
    pub open spec fn recorded(before: Self, after: Self, events: Seq<Event>) -> bool {
        &&& after.same_setup(before)
        &&& after.history() == before.history() + events
    }

    /// What `after` has in its history beyond that of `before` and the
    /// `notices` that follow it.
    pub open spec fn beyond(before: Self, after: Self, notices: Seq<Event>) -> Seq<Event> {
        after.history().skip((before.history().len() + notices.len()) as int)
    }

    /// `after` is `before` having first added `notices` to its history and
    /// then driven `plan` with the given result.
    pub open spec fn carried_out(
        before: Self,
        after: Self,
        notices: Seq<Event>,
        plan: Seq<Step>,
        result: Result<(), ()>,
    ) -> bool {
        &&& after.same_setup(before)
        &&& (before.history() + notices).is_prefix_of(after.history())
        &&& outcome(plan, Self::beyond(before, after, notices), result)
    }

    /// `after` is `before` having driven `plan` with the given result, and
    /// done nothing else.
    pub open spec fn drove(
        before: Self,
        after: Self,
        plan: Seq<Step>,
        result: Result<(), ()>,
    ) -> bool {
        Self::carried_out(before, after, Seq::empty(), plan, result)
    }
}

impl<'a, 'b, 'c> DebugLed<'a, 'b, 'c> {
    /// A dispatcher that has done nothing yet.
    pub fn new(
        timings: Timings,
        debug_print: Option<PrintHook<'c>>,
        on_report: Option<ReportHook<'c>>,
        set_status: Actuator<'a>,
        delay: Delay<'b>,
    ) -> (del: Self)
        ensures
            del.timings() == timings,
            del.print_hook() == debug_print,
            del.report_hook() == on_report,
            del.actuator() == set_status,
            del.delay_provider() == delay,
            del.history() == Seq::<Event>::empty(),
    {
        let history = Ghost(Seq::empty());
        DebugLed { timings, debug_print, on_report, set_status, delay, history }
    }

    /// Commands the output on or off and hands back the actuator's answer.
    pub fn drive(&mut self, on: bool) -> (result: Result<(), ()>)
        ensures
            Self::recorded(
                *old(self),
                *final(self),
                seq![answered(Step::SetStatus(on), result)],
            ),
    {
        let result = set_status(&mut self.set_status, on);
        let ghost event = answered(Step::SetStatus(on), result);
        proof {
            self.history@ = self.history@.push(event);
            assert(self.history@ =~= old(self).history() + seq![event]);
        }
        result
    }

    /// Blocks for `ms` milliseconds.
    pub fn pause(&mut self, ms: u32)
        ensures
            Self::recorded(*old(self), *final(self), seq![Event::Accepted(Step::DelayMs(ms))]),
    {
        delay_ms(&mut self.delay, ms);
        let ghost event = Event::Accepted(Step::DelayMs(ms));
        proof {
            self.history@ = self.history@.push(event);
            assert(self.history@ =~= old(self).history() + seq![event]);
        }
    }

    /// Emits one pulse: output on, hold for `on_ms`, output off, hold for
    /// the profile's off-pause.
    ///
    /// Returns `Err` as soon as the actuator refuses a command; the output is
    /// then left in its last commanded state.
    pub fn emit_pulse(&mut self, on_ms: u32) -> (result: Result<(), ()>)
        ensures
            Self::drove(*old(self), *final(self), pulse(on_ms, off(old(self).timings())), result),
    {
        let off_ms = self.timings.1;
        let ghost plan = pulse(on_ms, off_ms);
        let ghost before = self.history@;
        let risen = self.drive(true);
        if risen.is_err() {
            proof {
                assert(self.history@.skip(before.len() as int) =~= refused_at(plan, 0));
            }
            return Err(());
        }
        self.pause(on_ms);
        let fallen = self.drive(false);
        if fallen.is_err() {
            proof {
                assert(self.history@.skip(before.len() as int) =~= refused_at(plan, 2));
            }
            return Err(());
        }
        self.pause(off_ms);
        proof {
            assert(self.history@.skip(before.len() as int) =~= completed(plan));
        }
        Ok(())
    }

    /// Hands `message` to the print hook, if there is one.
    pub fn print_message(&mut self, message: &str)
        ensures
            Self::recorded(
                *old(self),
                *final(self),
                old(self).printing(seq![Event::PrintedMessage(message@)]),
            ),
    {
        match &self.debug_print {
            Some(hook) => {
                print(hook, &message);
                proof {
                    self.history@ = self.history@.push(Event::PrintedMessage(message@));
                    assert(self.history@ =~= old(self).history() + seq![
                        Event::PrintedMessage(message@),
                    ]);
                }
            },
            None => {
                assert(self.history@ + Seq::<Event>::empty() =~= self.history@);
            },
        }
    }

    /// Hands the failure value to the print hook, if there is one.
    pub fn print_failure<E: Debug>(&mut self, failure: &E)
        ensures
            Self::recorded(
                *old(self),
                *final(self),
                old(self).printing(seq![Event::PrintedFailure]),
            ),
    {
        match &self.debug_print {
            Some(hook) => {
                print(hook, failure);
                proof {
                    self.history@ = self.history@.push(Event::PrintedFailure);
                    assert(self.history@ =~= old(self).history() + seq![Event::PrintedFailure]);
                }
            },
            None => {
                assert(self.history@ + Seq::<Event>::empty() =~= self.history@);
            },
        }
    }

    /// Invokes the on-report hook, if there is one, with `report`.
    pub fn notify<R: DebugReport>(&mut self, report: &R)
        ensures
            Self::recorded(
                *old(self),
                *final(self),
                old(self).observation(report.once_steps(old(self).timings())),
            ),
    {
        match &mut self.on_report {
            Some(hook) => {
                observe(hook, report);
                let ghost seen = Event::Observed(report.once_steps(self.timings()));
                proof {
                    self.history@ = self.history@.push(seen);
                    assert(self.history@ =~= old(self).history() + seq![seen]);
                }
            },
            None => {
                assert(self.history@ + Seq::<Event>::empty() =~= self.history@);
            },
        }
    }

    /// Reports once: invokes the on-report hook if there is one, then drives
    /// one cycle of `report`.
    ///
    /// Returns `Err` as soon as the actuator refuses a command, and attempts
    /// nothing after that command.
    pub fn try_report_once<R: DebugReport>(&mut self, report: &R) -> (result: Result<(), ()>)
        ensures
            Self::carried_out(
                *old(self),
                *final(self),
                old(self).observation(report.once_steps(old(self).timings())),
                report.once_steps(old(self).timings()),
                result,
            ),
    {
        let ghost before = *self;
        self.notify(report);
        let ghost between = *self;
        let result = report.emit_once(self);
        proof {
            Self::lemma_noticed_then_drove(
                before,
                between,
                *self,
                before.observation(report.once_steps(before.timings())),
                report.once_steps(before.timings()),
                result,
            );
        }
        result
    }

    /// Drives `count` cycles of `report`, one after another: each cycle is
    /// the report's own steps followed by one repeat gap.
    ///
    /// Returns `Err` as soon as the actuator refuses a command, and attempts
    /// nothing after that command; returns `Ok` only after all `count`
    /// cycles.
    pub fn emit_cycles<R: DebugReport>(&mut self, report: &R, count: u64) -> (result: Result<
        (),
        (),
    >)
        ensures
            Self::drove(
                *old(self),
                *final(self),
                cycles(
                    report.once_steps(old(self).timings()),
                    repeat_gap(old(self).timings()),
                    count as nat,
                ),
                result,
            ),
    {
        let (rep, _, _, _) = self.timings;
        let ghost before = *self;
        let ghost once = report.once_steps(before.timings());

        proof {
            Self::lemma_drove_nothing(before);
        }
        let mut done: u64 = 0;
        while done < count
            invariant
                before == *old(self),
                repeat_gap(before.timings()) == rep,
                once == report.once_steps(before.timings()),
                done <= count,
                Self::drove(before, *self, cycles(once, rep, done as nat), Ok(())),
            decreases count - done,
        {
            let ghost start = *self;
            let result = report.emit_once(self);
            proof {
                Self::lemma_drove_chain(
                    before,
                    start,
                    *self,
                    Seq::empty(),
                    cycles(once, rep, done as nat),
                    once,
                    result,
                );
                if result is Err {
                    lemma_cycles_partial(once, rep, done as nat, count as nat);
                    Self::lemma_drove_refused_early(
                        before,
                        *self,
                        Seq::empty(),
                        cycles(once, rep, count as nat),
                        (cycles(once, rep, done as nat).len() + once.len()) as int,
                    );
                }
            }
            result?;
            let ghost sent = *self;
            self.pause(rep);
            proof {
                Self::lemma_drove_one(sent, *self, Step::DelayMs(rep));
                Self::lemma_drove_chain(
                    before,
                    sent,
                    *self,
                    Seq::empty(),
                    cycles(once, rep, done as nat) + once,
                    seq![Step::DelayMs(rep)],
                    Ok(()),
                );
                lemma_cycles_unfold(once, rep, done as nat);
            }
            done += 1;
        }
        Ok(())
    }

    /// Reports for `count` cycles: invokes the on-report hook if there is
    /// one, then drives `count` cycles of `report`. This is what reporting
    /// without end does, cut off after `count` cycles.
    pub fn try_report_cycles<R: DebugReport>(&mut self, report: &R, count: u64) -> (result: Result<
        (),
        (),
    >)
        ensures
            Self::carried_out(
                *old(self),
                *final(self),
                old(self).observation(report.once_steps(old(self).timings())),
                cycles(
                    report.once_steps(old(self).timings()),
                    repeat_gap(old(self).timings()),
                    count as nat,
                ),
                result,
            ),
    {
        let ghost before = *self;
        let ghost once = report.once_steps(before.timings());
        self.notify(report);
        let ghost between = *self;
        let result = self.emit_cycles(report, count);
        proof {
            Self::lemma_noticed_then_drove(
                before,
                between,
                *self,
                before.observation(once),
                cycles(once, repeat_gap(before.timings()), count as nat),
                result,
            );
        }
        result
    }
}

impl<'a, 'b, 'c> DebugLed<'a, 'b, 'c> {
    /// Adding `notices` and then `events`, which are an outcome of `plan`, is
    /// carrying out `plan` after `notices`.
    pub proof fn lemma_carried_out(
        before: Self,
        after: Self,
        notices: Seq<Event>,
        events: Seq<Event>,
        plan: Seq<Step>,
        result: Result<(), ()>,
    )
        requires
            Self::recorded(before, after, notices + events),
            outcome(plan, events, result),
        ensures
            Self::carried_out(before, after, notices, plan, result),
    {
        assert(Self::beyond(before, after, notices) =~= events);
    }

    /// Carrying out `plan` after `notices` adds `notices` and then an outcome
    /// of `plan`, and nothing else.
    pub proof fn lemma_carried_out_records(
        before: Self,
        after: Self,
        notices: Seq<Event>,
        plan: Seq<Step>,
        result: Result<(), ()>,
    ) -> (events: Seq<Event>)
        requires
            Self::carried_out(before, after, notices, plan, result),
        ensures
            Self::recorded(before, after, notices + events),
            outcome(plan, events, result),
    {
        let events = Self::beyond(before, after, notices);
        let head = before.history() + notices;
        assert(head =~= after.history().subrange(0, head.len() as int));
        assert(after.history() =~= head + events);
        assert(head + events =~= before.history() + (notices + events));
        events
    }

    /// Driving `first` to the end and then `second` is driving `first + second`.
    pub proof fn lemma_drove_chain(
        before: Self,
        between: Self,
        after: Self,
        notices: Seq<Event>,
        first: Seq<Step>,
        second: Seq<Step>,
        result: Result<(), ()>,
    )
        requires
            Self::carried_out(before, between, notices, first, Ok(())),
            Self::drove(between, after, second, result),
        ensures
            Self::carried_out(before, after, notices, first + second, result),
    {
        let first_events = Self::lemma_carried_out_records(
            before,
            between,
            notices,
            first,
            Ok(()),
        );
        let second_events = Self::lemma_carried_out_records(
            between,
            after,
            Seq::empty(),
            second,
            result,
        );
        lemma_outcome_chain(first, second, first_events, second_events, result);
        assert(after.history() =~= before.history() + (notices + (first_events + second_events)));
        Self::lemma_carried_out(
            before,
            after,
            notices,
            first_events + second_events,
            first + second,
            result,
        );
    }

    /// A drive that was refused within the first `len` steps of `plan` is a
    /// refused drive of `plan`.
    pub proof fn lemma_drove_refused_early(
        before: Self,
        after: Self,
        notices: Seq<Event>,
        plan: Seq<Step>,
        len: int,
    )
        requires
            0 <= len <= plan.len(),
            Self::carried_out(before, after, notices, plan.take(len), Err(())),
        ensures
            Self::carried_out(before, after, notices, plan, Err(())),
    {
        lemma_outcome_refused_early(plan, len, Self::beyond(before, after, notices));
    }

    /// Notices followed by a drive are the drive carried out after the notices.
    pub proof fn lemma_noticed_then_drove(
        before: Self,
        between: Self,
        after: Self,
        notices: Seq<Event>,
        plan: Seq<Step>,
        result: Result<(), ()>,
    )
        requires
            Self::recorded(before, between, notices),
            Self::drove(between, after, plan, result),
        ensures
            Self::carried_out(before, after, notices, plan, result),
    {
        let events = Self::lemma_carried_out_records(between, after, Seq::empty(), plan, result);
        assert(after.history() =~= before.history() + (notices + events));
        Self::lemma_carried_out(before, after, notices, events, plan, result);
    }

    /// Issuing one accepted command is driving the plan that holds just that
    /// command to its end.
    pub proof fn lemma_drove_one(before: Self, after: Self, step: Step)
        requires
            Self::recorded(before, after, seq![Event::Accepted(step)]),
        ensures
            Self::drove(before, after, seq![step], Ok(())),
    {
        let events = seq![Event::Accepted(step)];
        assert(events =~= completed(seq![step]));
        assert(Seq::<Event>::empty() + events =~= events);
        Self::lemma_carried_out(before, after, Seq::empty(), events, seq![step], Ok(()));
    }

    /// Doing nothing is driving the empty plan to its end.
    pub proof fn lemma_drove_nothing(del: Self)
        ensures
            Self::drove(del, del, Seq::empty(), Ok(())),
    {
        assert(Self::beyond(del, del, Seq::empty()) =~= completed(Seq::empty()));
    }

    /// One more pulse after the first `sent` pulses of a train: if it
    /// completes, the first `sent + 1` pulses have been driven; if it is
    /// refused, the drive of the whole train is refused.
    pub proof fn lemma_drove_next_pulse(
        before: Self,
        between: Self,
        after: Self,
        durations: Seq<u32>,
        off_ms: u32,
        sent: int,
        result: Result<(), ()>,
    )
        requires
            0 <= sent < durations.len(),
            Self::drove(before, between, pulse_train(durations.take(sent), off_ms), Ok(())),
            Self::drove(between, after, pulse(durations[sent], off_ms), result),
        ensures
            result is Ok ==> Self::drove(
                before,
                after,
                pulse_train(durations.take(sent + 1), off_ms),
                Ok(()),
            ),
            result is Err ==> Self::drove(before, after, pulse_train(durations, off_ms), Err(())),
    {
        let head = durations.take(sent);
        Self::lemma_drove_chain(
            before,
            between,
            after,
            Seq::empty(),
            pulse_train(head, off_ms),
            pulse(durations[sent], off_ms),
            result,
        );
        lemma_pulse_train_push(head, durations[sent], off_ms);
        assert(head.push(durations[sent]) =~= durations.take(sent + 1));
        if result is Err {
            lemma_pulse_train_take(durations, off_ms, sent + 1);
            lemma_pulse_train_len(durations, off_ms);
            Self::lemma_drove_refused_early(
                before,
                after,
                Seq::empty(),
                pulse_train(durations, off_ms),
                4 * (sent + 1),
            );
        }
    }

    /// A refused drive halts at once: the last entry of the history is the
    /// refused command, a `SetStatus`; every command of the drive before it
    /// was accepted; and the commands attempted are the first commands of the
    /// plan, in order, with none left out and none added.
    pub proof fn lemma_refused_drive_halts(
        before: Self,
        after: Self,
        notices: Seq<Event>,
        plan: Seq<Step>,
    )
        requires
            Self::carried_out(before, after, notices, plan, Err(())),
        ensures
            0 < Self::beyond(before, after, notices).len() <= plan.len(),
            after.history() == before.history() + notices + Self::beyond(before, after, notices),
            plan[Self::beyond(before, after, notices).len() - 1] is SetStatus,
            after.history().last() == Event::Refused(
                plan[Self::beyond(before, after, notices).len() - 1],
            ),
            forall|i: int|
                0 <= i < Self::beyond(before, after, notices).len() - 1 ==> #[trigger] Self::beyond(
                    before,
                    after,
                    notices,
                )[i] == Event::Accepted(plan[i]),
    {
        let events = Self::lemma_carried_out_records(before, after, notices, plan, Err(()));
        lemma_refusal_halts(plan, events);
        assert(after.history() =~= before.history() + notices + events);
    }

    /// Reporting is repeatable: the steps of a report depend on the report
    /// and the timing profile alone, and reporting changes neither. Two
    /// reports of the same kind, one right after the other through the same
    /// dispatcher, follow the same plan, and where both complete they add the
    /// same entries to the history.
    pub proof fn lemma_report_once_repeats<R: DebugReport>(
        report: &R,
        start: Self,
        middle: Self,
        end: Self,
        first: Result<(), ()>,
        second: Result<(), ()>,
    )
        requires
            Self::carried_out(
                start,
                middle,
                start.observation(report.once_steps(start.timings())),
                report.once_steps(start.timings()),
                first,
            ),
            Self::carried_out(
                middle,
                end,
                middle.observation(report.once_steps(middle.timings())),
                report.once_steps(middle.timings()),
                second,
            ),
        ensures
            report.once_steps(middle.timings()) == report.once_steps(start.timings()),
            middle.observation(report.once_steps(middle.timings())) == start.observation(
                report.once_steps(start.timings()),
            ),
            first is Ok && second is Ok ==> end.history().skip(middle.history().len() as int)
                == middle.history().skip(start.history().len() as int),
    {
        let plan = report.once_steps(start.timings());
        let notices = start.observation(plan);
        let first_events = Self::lemma_carried_out_records(start, middle, notices, plan, first);
        let second_events = Self::lemma_carried_out_records(middle, end, notices, plan, second);
        if first is Ok && second is Ok {
            assert(middle.history().skip(start.history().len() as int) =~= notices + first_events);
            assert(end.history().skip(middle.history().len() as int) =~= notices + second_events);
        }
    }
}

} // verus!
