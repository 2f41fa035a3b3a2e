//! The mathematical model of what a dispatcher does: the commands it plans to
//! issue, and the record of what it actually did.

use vstd::prelude::*;

verus! {

/// One command to the hardware.
pub enum Step {
    /// Drive the output on (`true`) or off (`false`).
    SetStatus(bool),
    /// Block for this many milliseconds.
    DelayMs(u32),
}

/// One entry of a dispatcher's history.
pub enum Event {
    /// The on-report hook was invoked with a report that has these steps
    /// under the dispatcher's timing profile.
    Observed(Seq<Step>),
    /// The print hook was handed this text.
    PrintedMessage(Seq<char>),
    /// The print hook was handed the failure value itself.
    PrintedFailure,
    /// This command was issued, and it was carried out: the actuator answered
    /// with success, or the delay provider came back.
    Accepted(Step),
    /// This command was issued, and the actuator answered with a failure.
    Refused(Step),
}

/// The entry that a command leaves in the history, given the answer to it.
pub open spec fn answered(step: Step, answer: Result<(), ()>) -> Event {
    if answer is Ok {
        Event::Accepted(step)
    } else {
        Event::Refused(step)
    }
}

/// A pulse: output on, hold for `on_ms`, output off, hold for `off_ms`.
pub open spec fn pulse(on_ms: u32, off_ms: u32) -> Seq<Step> {
    seq![
        Step::SetStatus(true),
        Step::DelayMs(on_ms),
        Step::SetStatus(false),
        Step::DelayMs(off_ms),
    ]
}

/// The pulses with the given on-durations one after another, each followed by
/// the same off-pause.
pub open spec fn pulse_train(durations: Seq<u32>, off_ms: u32) -> Seq<Step>
    decreases durations.len(),
{
    if durations.len() == 0 {
        Seq::empty()
    } else {
        pulse_train(durations.drop_last(), off_ms) + pulse(durations.last(), off_ms)
    }
}

/// One cycle of a repeated report: the report's own steps, then the repeat gap.
pub open spec fn cycle(once: Seq<Step>, gap_ms: u32) -> Seq<Step> {
    once.push(Step::DelayMs(gap_ms))
}

/// `count` cycles one after another.
pub open spec fn cycles(once: Seq<Step>, gap_ms: u32, count: nat) -> Seq<Step>
    decreases count,
{
    if count == 0 {
        Seq::empty()
    } else {
        cycles(once, gap_ms, (count - 1) as nat) + cycle(once, gap_ms)
    }
}

/// The history left behind when every step of `plan` was issued and accepted.
pub open spec fn completed(plan: Seq<Step>) -> Seq<Event> {
    Seq::new(plan.len(), |i: int| Event::Accepted(plan[i]))
}

/// The history left behind when the steps before index `at` were issued and
/// accepted, the step at `at` was issued and refused, and nothing was issued
/// after it.
pub open spec fn refused_at(plan: Seq<Step>, at: int) -> Seq<Event> {
    completed(plan.take(at)).push(Event::Refused(plan[at]))
}

/// What driving `plan` may leave behind, for each result.
///
/// `Ok`: the whole plan, every step accepted. `Err`: the plan up to and
/// including one `SetStatus` step, which the actuator refused; no step after
/// it was attempted.
pub open spec fn outcome(plan: Seq<Step>, events: Seq<Event>, result: Result<(), ()>) -> bool {
    match result {
        Ok(()) => events == completed(plan),
        Err(()) => exists|at: int|
            0 <= at < plan.len() && plan[at] is SetStatus && events == #[trigger] refused_at(
                plan,
                at,
            ),
    }
}

/// Driving `first` to the end and then `second` is driving `first + second`.
pub proof fn lemma_outcome_chain(
    first: Seq<Step>,
    second: Seq<Step>,
    first_events: Seq<Event>,
    second_events: Seq<Event>,
    result: Result<(), ()>,
)
    requires
        outcome(first, first_events, Ok(())),
        outcome(second, second_events, result),
    ensures
        outcome(first + second, first_events + second_events, result),
{
    match result {
        Ok(()) => {
            assert(first_events + second_events =~= completed(first + second));
        },
        Err(()) => {
            let at = choose|at: int|
                0 <= at < second.len() && second[at] is SetStatus && second_events
                    == #[trigger] refused_at(second, at);
            let whole = first + second;
            let k = first.len() + at;
            assert(whole[k] == second[at]);
            assert(first_events + second_events =~= refused_at(whole, k));
        },
    }
}

/// A drive that was refused within the first `len` steps of `plan` is a
/// refused drive of the whole of `plan`.
pub proof fn lemma_outcome_refused_early(plan: Seq<Step>, len: int, events: Seq<Event>)
    requires
        0 <= len <= plan.len(),
        outcome(plan.take(len), events, Err(())),
    ensures
        outcome(plan, events, Err(())),
{
    let head = plan.take(len);
    let at = choose|at: int|
        0 <= at < head.len() && head[at] is SetStatus && events == #[trigger] refused_at(head, at);
    assert(head.take(at) =~= plan.take(at));
    assert(events == refused_at(plan, at));
}

/// A refused drive halts at once: the refused command is a `SetStatus`, it is
/// the last entry, every entry before it was accepted, and the commands
/// attempted are the plan's own, in order, with none left out.
pub proof fn lemma_refusal_halts(plan: Seq<Step>, events: Seq<Event>)
    requires
        outcome(plan, events, Err(())),
    ensures
        0 < events.len() <= plan.len(),
        events.last() == Event::Refused(plan[events.len() - 1]),
        plan[events.len() - 1] is SetStatus,
        forall|i: int|
            0 <= i < events.len() - 1 ==> #[trigger] events[i] == Event::Accepted(plan[i]),
{
    let at = choose|at: int|
        0 <= at < plan.len() && plan[at] is SetStatus && events == #[trigger] refused_at(plan, at);
    assert(events.len() == at + 1);
}

/// The history tells the result: a drive failed exactly when its last entry
/// is a refused command, and succeeded exactly when its entries are the whole
/// plan, every step accepted.
pub proof fn lemma_outcome_tells_result(plan: Seq<Step>, events: Seq<Event>, result: Result<(), ()>)
    requires
        outcome(plan, events, result),
    ensures
        result is Err <==> events.len() > 0 && events.last() is Refused,
        result is Ok <==> events == completed(plan),
{
    if result is Err {
        lemma_refusal_halts(plan, events);
        if events == completed(plan) {
            assert(completed(plan).last() is Accepted);
        }
    }
}

/// A completed drive attempted every step of the plan, in order, and every
/// one was accepted.
pub proof fn lemma_completion_is_whole(plan: Seq<Step>, events: Seq<Event>)
    requires
        outcome(plan, events, Ok(())),
    ensures
        events.len() == plan.len(),
        forall|i: int| 0 <= i < plan.len() ==> #[trigger] events[i] == Event::Accepted(plan[i]),
{
}

/// Appending one more duration appends one more pulse.
pub proof fn lemma_pulse_train_push(durations: Seq<u32>, on_ms: u32, off_ms: u32)
    ensures
        pulse_train(durations.push(on_ms), off_ms) == pulse_train(durations, off_ms) + pulse(
            on_ms,
            off_ms,
        ),
{
    assert(durations.push(on_ms).drop_last() =~= durations);
}

/// A train has four steps for each pulse.
pub proof fn lemma_pulse_train_len(durations: Seq<u32>, off_ms: u32)
    ensures
        pulse_train(durations, off_ms).len() == 4 * durations.len(),
    decreases durations.len(),
{
    if durations.len() > 0 {
        lemma_pulse_train_len(durations.drop_last(), off_ms);
    }
}

/// The train of the first `count` durations is the first `4 * count` steps of
/// the whole train.
pub proof fn lemma_pulse_train_take(durations: Seq<u32>, off_ms: u32, count: int)
    requires
        0 <= count <= durations.len(),
    ensures
        pulse_train(durations.take(count), off_ms) == pulse_train(durations, off_ms).take(
            4 * count,
        ),
    decreases durations.len(),
{
    lemma_pulse_train_len(durations, off_ms);
    if count == durations.len() {
        assert(durations.take(count) =~= durations);
        assert(pulse_train(durations, off_ms).take(4 * count) =~= pulse_train(durations, off_ms));
    } else {
        let front = durations.drop_last();
        lemma_pulse_train_take(front, off_ms, count);
        lemma_pulse_train_len(front, off_ms);
        assert(front.take(count) =~= durations.take(count));
        assert(pulse_train(durations, off_ms).take(4 * count) =~= pulse_train(front, off_ms).take(
            4 * count,
        ));
    }
}

/// Pulse number `index` of a train occupies steps `4 * index` to
/// `4 * index + 3` and holds the output on for `durations[index]`.
pub proof fn lemma_pulse_train_pulse(durations: Seq<u32>, off_ms: u32, index: int)
    requires
        0 <= index < durations.len(),
    ensures
        pulse_train(durations, off_ms).len() == 4 * durations.len(),
        pulse_train(durations, off_ms).subrange(4 * index, 4 * index + 4) == pulse(
            durations[index],
            off_ms,
        ),
{
    let train = pulse_train(durations, off_ms);
    lemma_pulse_train_len(durations, off_ms);
    lemma_pulse_train_take(durations, off_ms, index);
    lemma_pulse_train_take(durations, off_ms, index + 1);
    lemma_pulse_train_push(durations.take(index), durations[index], off_ms);
    assert(durations.take(index).push(durations[index]) =~= durations.take(index + 1));
    lemma_pulse_train_len(durations.take(index), off_ms);
    let head = train.take(4 * index);
    let next = train.take(4 * index + 4);
    assert(next == head + pulse(durations[index], off_ms));
    assert forall|k: int| 0 <= k < 4 implies train[4 * index + k] == pulse(
        durations[index],
        off_ms,
    )[k] by {
        assert(train[4 * index + k] == next[4 * index + k]);
    }
    assert(train.subrange(4 * index, 4 * index + 4) =~= pulse(durations[index], off_ms));
}

/// One more cycle is the cycles so far, then the report's steps, then the gap.
pub proof fn lemma_cycles_unfold(once: Seq<Step>, gap_ms: u32, count: nat)
    ensures
        cycles(once, gap_ms, count + 1) == cycles(once, gap_ms, count) + once + seq![
            Step::DelayMs(gap_ms),
        ],
{
    assert(cycles(once, gap_ms, count + 1) == cycles(once, gap_ms, count) + cycle(once, gap_ms));
    assert(cycles(once, gap_ms, count) + cycle(once, gap_ms) =~= cycles(once, gap_ms, count) + once
        + seq![Step::DelayMs(gap_ms)]);
}

/// Every cycle has the length of the report's steps and one more.
pub proof fn lemma_cycles_len(once: Seq<Step>, gap_ms: u32, count: nat)
    ensures
        cycles(once, gap_ms, count).len() == count * (once.len() + 1),
    decreases count,
{
    if count > 0 {
        lemma_cycles_len(once, gap_ms, (count - 1) as nat);
        assert(count * (once.len() + 1) == (count - 1) * (once.len() + 1) + (once.len() + 1))
            by (nonlinear_arith);
    } else {
        assert(0 * (once.len() + 1) == 0) by (nonlinear_arith);
    }
}

/// Running longer never changes what came before: fewer cycles are a prefix
/// of more cycles.
pub proof fn lemma_cycles_prefix(once: Seq<Step>, gap_ms: u32, fewer: nat, more: nat)
    requires
        fewer <= more,
    ensures
        cycles(once, gap_ms, fewer).is_prefix_of(cycles(once, gap_ms, more)),
    decreases more,
{
    if fewer < more {
        lemma_cycles_prefix(once, gap_ms, fewer, (more - 1) as nat);
    }
}

/// The cycles so far followed by the report's steps, without the gap, are the
/// beginning of any longer run.
pub proof fn lemma_cycles_partial(once: Seq<Step>, gap_ms: u32, done: nat, count: nat)
    requires
        done < count,
    ensures
        cycles(once, gap_ms, done).len() + once.len() < cycles(once, gap_ms, count).len(),
        cycles(once, gap_ms, done) + once == cycles(once, gap_ms, count).take(
            (cycles(once, gap_ms, done).len() + once.len()) as int,
        ),
{
    let next = cycles(once, gap_ms, done + 1);
    lemma_cycles_unfold(once, gap_ms, done);
    lemma_cycles_prefix(once, gap_ms, done + 1, count);
    let len = cycles(once, gap_ms, done).len() + once.len();
    assert(next.take(len as int) =~= cycles(once, gap_ms, done) + once);
    assert(cycles(once, gap_ms, count).take(len as int) =~= next.take(len as int));
}

/// Where cycle number `index` begins in a repeated report.
pub open spec fn cycle_start(once: Seq<Step>, index: nat) -> int {
    (index * (once.len() + 1)) as int
}

/// Cycle number `index` of a repeated report is the report's own steps
/// followed by one repeat gap.
pub proof fn lemma_cycles_cycle(once: Seq<Step>, gap_ms: u32, count: nat, index: nat)
    requires
        index < count,
    ensures
        cycles(once, gap_ms, count).len() == cycle_start(once, count),
        cycle_start(once, index) + once.len() < cycle_start(once, count),
        cycles(once, gap_ms, count).subrange(
            cycle_start(once, index),
            cycle_start(once, index) + once.len(),
        ) == once,
        cycles(once, gap_ms, count)[cycle_start(once, index) + once.len()] == Step::DelayMs(gap_ms),
    decreases count,
{
    let width = (once.len() + 1) as int;
    let start = cycle_start(once, index);
    let all = cycles(once, gap_ms, count);
    let front = cycles(once, gap_ms, (count - 1) as nat);
    lemma_cycles_len(once, gap_ms, count);
    lemma_cycles_len(once, gap_ms, (count - 1) as nat);
    assert(count * width == (count - 1) * width + width) by (nonlinear_arith);
    assert(start + width <= count * width) by (nonlinear_arith)
        requires
            start == index * width,
            index + 1 <= count,
            width >= 0,
    ;
    if index + 1 == count {
        assert(all.subrange(start, start + once.len()) =~= once);
    } else {
        lemma_cycles_cycle(once, gap_ms, (count - 1) as nat, index);
        assert(all.subrange(start, start + once.len()) =~= front.subrange(
            start,
            start + once.len(),
        ));
    }
}

} // verus!
