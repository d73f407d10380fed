//! Rotary encoder: how detents of the knob move the display verbosity.

use vstd::prelude::*;

verus! {

/// Number of verbosity levels the knob cycles through.
pub const VERBOSITY_LEVELS: u8 = 10;

/// Verbosity shown when the device starts.
pub const INITIAL_VERBOSITY: u8 = 8;

/// Full quadrature decoding produces four counts per mechanical detent.
pub const COUNTS_PER_STEP: i16 = 4;

/// Verbosity after the knob moved by `steps` detents: turning by one step
/// lowers the level by one, cycling through `VERBOSITY_LEVELS` levels.
pub open spec fn stepped_verbosity(verbosity: int, steps: int) -> int {
    (verbosity - steps) % (VERBOSITY_LEVELS as int)
}

/// The verbosity that follows `verbosity` when the knob reports `steps`.
pub fn next_verbosity(verbosity: u8, steps: i16) -> (next: u8)
    requires
        i16::MIN <= verbosity - steps <= i16::MAX,
    ensures
        next as int == stepped_verbosity(verbosity as int, steps as int),
        next < VERBOSITY_LEVELS,
{
    let difference: i16 = verbosity as i16 - steps;
    // Shift by a multiple of the level count so the remainder is taken of a
    // non-negative number.
    let shifted: u32 = (difference as i32 + 32770) as u32;
    let wrapped: u32 = shifted % (VERBOSITY_LEVELS as u32);
    assert(wrapped as int == (difference as int) % 10) by (nonlinear_arith)
        requires
            shifted as int == difference + 32770,
            wrapped as int == shifted % 10,
    ;
    wrapped as u8
}

/// Law of the knob: turning back by as many detents as were just turned
/// restores the verbosity, and the level always stays below
/// `VERBOSITY_LEVELS`.
pub proof fn lemma_verbosity_round_trip(verbosity: int, steps: int)
    requires
        0 <= verbosity < VERBOSITY_LEVELS,
    ensures
        0 <= stepped_verbosity(verbosity, steps) < VERBOSITY_LEVELS,
        stepped_verbosity(stepped_verbosity(verbosity, steps), -steps) == verbosity,
{
    let once = stepped_verbosity(verbosity, steps);
    assert((once + steps) % 10 == verbosity) by (nonlinear_arith)
        requires
            once == (verbosity - steps) % 10,
            0 <= verbosity < 10,
    ;
}

/// The steps the interrupt handler reports for the counter's limit events:
/// reaching the high limit reports one step forward, reaching the low limit
/// one step back, in that order.
pub fn limit_steps(high_limit: bool, low_limit: bool) -> (steps: Vec<i16>)
    ensures
        steps@ == (if high_limit { seq![1i16] } else { Seq::empty() }) + (if low_limit {
            seq![-1i16]
        } else {
            Seq::empty()
        }),
{
    let mut steps: Vec<i16> = Vec::new();
    if high_limit {
        steps.push(1);
    }
    if low_limit {
        steps.push(-1);
    }
    assert(steps@ =~= (if high_limit { seq![1i16] } else { Seq::empty() }) + (if low_limit {
        seq![-1i16]
    } else {
        Seq::empty()
    }));
    steps
}

} // verus!
