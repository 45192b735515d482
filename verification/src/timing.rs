use vstd::prelude::*;
use vstd::arithmetic::mul::lemma_mul_upper_bound;

verus! {

/// The timing template of the pulse-distance protocol.
///
/// Every duration is a nominal interval length in receiver ticks (one tick is
/// a microsecond at the reference 1 MHz capture rate). An observed interval
/// matches a nominal duration when it lies within the symmetric relative
/// tolerance band around it. The template is configuration: decode logic
/// never hard-codes a duration, so tests may run on scaled timings.
#[derive(Clone, Copy, PartialEq, Eq, Structural, Debug)]
pub struct TimingConfig {
    /// Nominal length of the header mark that opens a frame.
    pub header_mark: u32,
    /// Nominal length of the header space of a full frame.
    pub header_space: u32,
    /// Nominal length of the shorter header space of a repeat code.
    pub repeat_space: u32,
    /// Nominal length of the fixed mark that opens every data bit.
    pub bit_mark: u32,
    /// Nominal length of the space that encodes a zero bit.
    pub space_zero: u32,
    /// Nominal length of the space that encodes a one bit.
    pub space_one: u32,
    /// Symmetric relative tolerance around each nominal duration, in percent.
    pub tolerance: u32,
}

impl TimingConfig {
    /// A template is well formed when every nominal duration is positive and
    /// the tolerance is a proper percentage, so every band has positive
    /// bounds.
    pub open spec fn wf(self) -> bool {
        &&& 0 < self.header_mark
        &&& 0 < self.header_space
        &&& 0 < self.repeat_space
        &&& 0 < self.bit_mark
        &&& 0 < self.space_zero
        &&& 0 < self.space_one
        &&& 0 < self.tolerance < 100
    }

    /// The NEC-style template of the reference remote at a 1 MHz tick rate:
    /// 9 ms header mark, 4.5 ms header space, 2.25 ms repeat space, 560 µs
    /// bit mark, 560 µs zero space, 1690 µs one space, ±25 % tolerance.
    pub open spec fn spec_nec() -> TimingConfig {
        TimingConfig {
            header_mark: 9000,
            header_space: 4500,
            repeat_space: 2250,
            bit_mark: 560,
            space_zero: 560,
            space_one: 1690,
            tolerance: 25,
        }
    }

    /// Returns the NEC-style template of the reference remote.
    pub fn nec() -> (config: TimingConfig)
        ensures
            config == TimingConfig::spec_nec(),
            config.wf(),
    {
        TimingConfig {
            header_mark: 9000,
            header_space: 4500,
            repeat_space: 2250,
            bit_mark: 560,
            space_zero: 560,
            space_one: 1690,
            tolerance: 25,
        }
    }
}

/// An observed interval lies within the tolerance band around a nominal
/// duration: `nominal * (100 - tolerance) <= interval * 100 <= nominal *
/// (100 + tolerance)`.
pub open spec fn in_band(interval: u32, nominal: u32, tolerance: u32) -> bool {
    nominal * (100 - tolerance) <= interval * 100 <= nominal * (100 + tolerance)
}

/// Decides `in_band` on observed values.
pub fn check_band(interval: u32, nominal: u32, tolerance: u32) -> (hit: bool)
    requires
        tolerance <= 100,
    ensures
        hit == in_band(interval, nominal, tolerance),
{
    proof {
        lemma_mul_upper_bound(nominal as int, u32::MAX as int, 100 - tolerance as int, 200);
        lemma_mul_upper_bound(nominal as int, u32::MAX as int, 100 + tolerance as int, 200);
    }
    let scaled: u64 = (interval as u64) * 100;
    let lower: u64 = (nominal as u64) * (100u64 - (tolerance as u64));
    let upper: u64 = (nominal as u64) * (100u64 + (tolerance as u64));
    lower <= scaled && scaled <= upper
}

} // verus!
