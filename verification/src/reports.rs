//! The built-in kinds of report.

use crate::bits::{bit, bit_width};
use crate::bits::{lemma_bit_is_parity_of_quotient, lemma_bit_width_is_highest_bit};
use crate::bits::{lemma_quotient_halves, lemma_quotient_positive_below_width};
use crate::dispatcher::{DebugLed, DebugReport};
use crate::signal::{lemma_pulse_train_len, lemma_pulse_train_pulse, lemma_pulse_train_take};
use crate::signal::{pulse, pulse_train, Step};
use crate::timing::{long_on, off, short_on, Timings};
use vstd::arithmetic::logarithm::{lemma_log_nonnegative, log};
use vstd::arithmetic::power2::{lemma2_to64, pow2};
use vstd::prelude::*;

verus! {

/// The on-duration of the pulse that stands for bit `index` of `value`:
/// short for a set bit, long for a clear one.
pub open spec fn bit_duration(value: u16, index: nat, timings: Timings) -> u32 {
    if bit(value, index) {
        short_on(timings)
    } else {
        long_on(timings)
    }
}

/// "Something failed", with no further detail: a single short pulse.
pub struct Blink;

/// A failure told by a count: that many short pulses.
pub struct Unary(pub u8);

/// A failure told by a 16-bit value at full width: one pulse for each of the
/// 16 bits, least significant first, leading zeros included.
pub struct Binary(pub u16);

/// A failure told by a 16-bit value in compact form: one pulse for each bit
/// up to the highest set bit, least significant first; a single long pulse
/// for the value zero.
pub struct SmallBinary(pub u16);

impl SmallBinary {
    /// The on-durations of the pulses of one cycle, in order.
    pub open spec fn durations(&self, timings: Timings) -> Seq<u32> {
        if self.0 == 0 {
            seq![long_on(timings)]
        } else {
            Seq::new(bit_width(self.0), |index: int| bit_duration(self.0, index as nat, timings))
        }
    }
}

impl DebugReport for SmallBinary {
    open spec fn once_steps(&self, timings: Timings) -> Seq<Step> {
        pulse_train(self.durations(timings), off(timings))
    }

    fn emit_once(&self, del: &mut DebugLed) -> (result: Result<(), ()>) {
        let (_, _, s_on, l_on) = del.timings();
        let ghost before = *del;
        let ghost off_ms = off(before.timings());
        let ghost durations = self.durations(before.timings());

        let mut val = self.0;

        if val == 0 {
            proof {
                DebugLed::lemma_drove_nothing(before);
                assert(durations.take(0) =~= Seq::<u32>::empty());
            }
            let result = del.emit_pulse(l_on);
            proof {
                DebugLed::lemma_drove_next_pulse(
                    before,
                    before,
                    *del,
                    durations,
                    off_ms,
                    0,
                    result,
                );
                assert(durations.take(1) =~= durations);
            }
            result
        } else {
            let ghost mut sent: nat = 0;
            proof {
                DebugLed::lemma_drove_nothing(before);
                assert(durations.take(0) =~= Seq::<u32>::empty());
                lemma2_to64();
                lemma_bit_width_is_highest_bit(self.0);
            }
            while val > 0
                invariant
                    before == *old(del),
                    short_on(before.timings()) == s_on,
                    long_on(before.timings()) == l_on,
                    off_ms == off(before.timings()),
                    durations == self.durations(before.timings()),
                    self.0 != 0,
                    sent <= bit_width(self.0) <= 16,
                    val as nat == self.0 as nat / pow2(sent),
                    DebugLed::drove(
                        before,
                        *del,
                        pulse_train(durations.take(sent as int), off_ms),
                        Ok(()),
                    ),
                decreases val,
            {
                let ghost between = *del;
                proof {
                    lemma_quotient_positive_below_width(self.0, sent);
                    lemma_bit_is_parity_of_quotient(self.0, sent);
                    assert(val & 1 == val % 2) by (bit_vector);
                }
                let result = del.emit_pulse(if (val & 1) == 1 { s_on } else { l_on });
                proof {
                    DebugLed::lemma_drove_next_pulse(
                        before,
                        between,
                        *del,
                        durations,
                        off_ms,
                        sent as int,
                        result,
                    );
                }
                result?;
                proof {
                    assert(val >> 1 == val / 2) by (bit_vector);
                    lemma_quotient_halves(self.0 as nat, sent);
                    sent = sent + 1;
                }
                val >>= 1;
            }
            proof {
                lemma_quotient_positive_below_width(self.0, sent);
                assert(durations.take(sent as int) =~= durations);
            }
            Ok(())
        }
    }
}

impl Binary {
    /// The on-durations of the pulses of one cycle, in order.
    pub open spec fn durations(&self, timings: Timings) -> Seq<u32> {
        Seq::new(16, |index: int| bit_duration(self.0, index as nat, timings))
    }
}

impl DebugReport for Binary {
    open spec fn once_steps(&self, timings: Timings) -> Seq<Step> {
        pulse_train(self.durations(timings), off(timings))
    }

    fn emit_once(&self, del: &mut DebugLed) -> (result: Result<(), ()>) {
        let (_, _, s_on, l_on) = del.timings();
        let ghost before = *del;
        let ghost off_ms = off(before.timings());
        let ghost durations = self.durations(before.timings());

        let mut val: u16 = self.0;

        proof {
            DebugLed::lemma_drove_nothing(before);
            assert(durations.take(0) =~= Seq::<u32>::empty());
            lemma2_to64();
        }
        for sent in 0..16u32
            invariant
                before == *old(del),
                short_on(before.timings()) == s_on,
                long_on(before.timings()) == l_on,
                off_ms == off(before.timings()),
                durations == self.durations(before.timings()),
                val as nat == self.0 as nat / pow2(sent as nat),
                DebugLed::drove(
                    before,
                    *del,
                    pulse_train(durations.take(sent as int), off_ms),
                    Ok(()),
                ),
        {
            let ghost between = *del;
            proof {
                lemma_bit_is_parity_of_quotient(self.0, sent as nat);
                assert(val & 1 == val % 2) by (bit_vector);
            }
            let result = del.emit_pulse(if (val & 1) == 1 { s_on } else { l_on });
            proof {
                DebugLed::lemma_drove_next_pulse(
                    before,
                    between,
                    *del,
                    durations,
                    off_ms,
                    sent as int,
                    result,
                );
            }
            result?;
            proof {
                assert(val >> 1 == val / 2) by (bit_vector);
                lemma_quotient_halves(self.0 as nat, sent as nat);
            }
            val >>= 1;
        }
        proof {
            assert(durations.take(16) =~= durations);
        }
        Ok(())
    }
}

impl Unary {
    /// The on-durations of the pulses of one cycle, in order.
    pub open spec fn durations(&self, timings: Timings) -> Seq<u32> {
        Seq::new(self.0 as nat, |index: int| short_on(timings))
    }
}

impl DebugReport for Unary {
    open spec fn once_steps(&self, timings: Timings) -> Seq<Step> {
        pulse_train(self.durations(timings), off(timings))
    }

    fn emit_once(&self, del: &mut DebugLed) -> (result: Result<(), ()>) {
        let (_, _, s_on, _) = del.timings();
        let ghost before = *del;
        let ghost off_ms = off(before.timings());
        let ghost durations = self.durations(before.timings());

        proof {
            DebugLed::lemma_drove_nothing(before);
            assert(durations.take(0) =~= Seq::<u32>::empty());
        }
        for sent in 0..self.0
            invariant
                before == *old(del),
                short_on(before.timings()) == s_on,
                off_ms == off(before.timings()),
                durations == self.durations(before.timings()),
                DebugLed::drove(
                    before,
                    *del,
                    pulse_train(durations.take(sent as int), off_ms),
                    Ok(()),
                ),
        {
            let ghost between = *del;
            let result = del.emit_pulse(s_on);
            proof {
                DebugLed::lemma_drove_next_pulse(
                    before,
                    between,
                    *del,
                    durations,
                    off_ms,
                    sent as int,
                    result,
                );
            }
            result?;
        }
        proof {
            assert(durations.take(self.0 as int) =~= durations);
        }
        Ok(())
    }
}

impl Blink {
    /// The on-durations of the pulses of one cycle: a single short pulse.
    pub open spec fn durations(&self, timings: Timings) -> Seq<u32> {
        seq![short_on(timings)]
    }
}

impl DebugReport for Blink {
    open spec fn once_steps(&self, timings: Timings) -> Seq<Step> {
        pulse_train(self.durations(timings), off(timings))
    }

    fn emit_once(&self, del: &mut DebugLed) -> (result: Result<(), ()>) {
        let (_, _, s_on, _) = del.timings();
        let ghost before = *del;
        let ghost durations = self.durations(before.timings());

        proof {
            DebugLed::lemma_drove_nothing(before);
            assert(durations.take(0) =~= Seq::<u32>::empty());
        }
        let result = del.emit_pulse(s_on);
        proof {
            DebugLed::lemma_drove_next_pulse(
                before,
                before,
                *del,
                durations,
                off(before.timings()),
                0,
                result,
            );
            assert(durations.take(1) =~= durations);
        }
        result
    }
}

/// One cycle of `Blink` is a single pulse that holds the output on for the
/// short duration.
pub proof fn lemma_blink_is_one_short_pulse(timings: Timings)
    ensures
        Blink.once_steps(timings) == pulse(short_on(timings), off(timings)),
{
    let durations = Blink.durations(timings);
    lemma_pulse_train_pulse(durations, off(timings), 0);
    let train = pulse_train(durations, off(timings));
    assert(train.subrange(0, 4) =~= train);
}

/// One cycle of `Unary(count)` is exactly `count` pulses and nothing else:
/// no repeat gap follows the last one.
pub proof fn lemma_unary_is_count_pulses(count: u8, timings: Timings)
    ensures
        Unary(count).durations(timings).len() == count,
        Unary(count).once_steps(timings).len() == 4 * count,
{
    lemma_pulse_train_len(Unary(count).durations(timings), off(timings));
}

/// Every pulse of `Unary(count)` holds the output on for the short duration
/// and is followed by the off-pause.
pub proof fn lemma_unary_pulse_is_short(count: u8, timings: Timings, index: int)
    requires
        0 <= index < count,
    ensures
        Unary(count).once_steps(timings).subrange(4 * index, 4 * index + 4) == pulse(
            short_on(timings),
            off(timings),
        ),
{
    lemma_pulse_train_pulse(Unary(count).durations(timings), off(timings), index);
}

/// One cycle of `Binary(value)` is exactly 16 pulses, whatever the value.
pub proof fn lemma_binary_is_sixteen_pulses(value: u16, timings: Timings)
    ensures
        Binary(value).durations(timings).len() == 16,
        Binary(value).once_steps(timings).len() == 64,
{
    lemma_pulse_train_len(Binary(value).durations(timings), off(timings));
}

/// Pulse `index` of `Binary(value)` holds the output on for the short
/// duration if bit `index` of the value is set and for the long duration if
/// it is clear, and is followed by the off-pause. Where the two durations
/// differ, the pulse is short exactly when the bit is set.
pub proof fn lemma_binary_pulse_tells_bit(value: u16, timings: Timings, index: int)
    requires
        0 <= index < 16,
    ensures
        Binary(value).once_steps(timings).subrange(4 * index, 4 * index + 4) == pulse(
            bit_duration(value, index as nat, timings),
            off(timings),
        ),
        Binary(value).once_steps(timings)[4 * index + 1] == Step::DelayMs(
            bit_duration(value, index as nat, timings),
        ),
        short_on(timings) != long_on(timings) ==> (Binary(value).once_steps(timings)[4 * index + 1]
            == Step::DelayMs(short_on(timings)) <==> bit(value, index as nat)),
{
    let durations = Binary(value).durations(timings);
    let steps = pulse_train(durations, off(timings));
    let window = steps.subrange(4 * index, 4 * index + 4);
    lemma_pulse_train_pulse(durations, off(timings), index);
    assert(durations[index] == bit_duration(value, index as nat, timings));
    assert(window[1] == steps[4 * index + 1]);
    assert(window[1] == Step::DelayMs(durations[index]));
}

/// One cycle of `SmallBinary(value)` for a non-zero value is exactly
/// `floor(log2(value)) + 1` pulses, and they are the first that many pulses
/// of `Binary(value)`: the bits up to the highest set bit, which is the last
/// pulse and therefore short.
pub proof fn lemma_small_binary_is_binary_cut_short(value: u16, timings: Timings)
    requires
        value != 0,
    ensures
        1 <= log(2, value as int) + 1 <= 16,
        SmallBinary(value).durations(timings).len() == log(2, value as int) + 1,
        SmallBinary(value).durations(timings) == Binary(value).durations(timings).take(
            log(2, value as int) + 1,
        ),
        SmallBinary(value).once_steps(timings).len() == 4 * (log(2, value as int) + 1),
        SmallBinary(value).once_steps(timings) == Binary(value).once_steps(timings).take(
            4 * (log(2, value as int) + 1),
        ),
        SmallBinary(value).durations(timings).last() == short_on(timings),
{
    let width = bit_width(value);
    let small = SmallBinary(value).durations(timings);
    let full = Binary(value).durations(timings);
    lemma_bit_width_is_highest_bit(value);
    lemma_log_nonnegative(2, value as int);
    assert(small =~= full.take(width as int));
    lemma_pulse_train_take(full, off(timings), width as int);
    lemma_pulse_train_len(small, off(timings));
}

/// One cycle of `SmallBinary(0)` is a single pulse that holds the output on
/// for the long duration.
pub proof fn lemma_small_binary_zero_is_one_long_pulse(timings: Timings)
    ensures
        SmallBinary(0).once_steps(timings) == pulse(long_on(timings), off(timings)),
{
    let durations = SmallBinary(0).durations(timings);
    lemma_pulse_train_pulse(durations, off(timings), 0);
    let train = pulse_train(durations, off(timings));
    assert(train.subrange(0, 4) =~= train);
}

} // verus!
