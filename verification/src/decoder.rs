use vstd::prelude::*;
use vstd::arithmetic::power2::{pow2, lemma_pow2_strictly_increases, lemma_pow2_unfold, lemma2_to64};
use vstd::bits::lemma_u16_shl_is_mul;

use crate::timing::{TimingConfig, in_band, check_band};

verus! {

/// The reason a pulse was rejected.
#[derive(Clone, Copy, PartialEq, Eq, Structural, Debug)]
pub enum DecodeError {
    /// An interval fell outside every tolerance band recognized in the
    /// current state.
    Timing,
    /// Sixteen bits were collected but the second byte is not the bitwise
    /// complement of the first.
    ChecksumMismatch,
}

/// A fully decoded protocol command: the data byte of a frame whose
/// complement check passed.
#[derive(Clone, Copy, PartialEq, Eq, Structural, Debug)]
pub struct RawCommand {
    /// The decoded command byte, transmitted least significant bit first.
    pub command_code: u8,
}

/// What one pulse produced: nothing yet, a repeat code, a full command, or a
/// rejection.
#[derive(Clone, Copy, PartialEq, Eq, Structural, Debug)]
pub enum DecodeOutcome {
    /// The pulse advanced the state machine without completing a frame.
    NoSymbol,
    /// A repeat code: the header of a "button still held" transmission. The
    /// caller treats it like `NoSymbol`; repeat suppression is the debounce
    /// gate's concern.
    Repeat,
    /// A frame completed and its complement check passed.
    Symbol(RawCommand),
    /// The pulse was rejected; the decoder has reset to `SeekingHeader`.
    Error(DecodeError),
}

/// Which half of a data bit the decoder expects next: the fixed-length mark
/// or the variable-length space that carries the bit value.
#[derive(Clone, Copy, PartialEq, Eq, Structural, Debug)]
pub enum BitPhase {
    AwaitMark,
    AwaitSpace,
}

/// The decode state machine position. `Complete` and error states are
/// transient: both fold back to `SeekingHeader` within the same step, so
/// they never appear here between steps.
#[derive(Clone, Copy, PartialEq, Eq, Structural, Debug)]
pub enum DecoderState {
    /// Waiting for a header mark; also the reset position after any
    /// completed or rejected frame.
    SeekingHeader,
    /// A header mark was seen; waiting for the header space that tells a
    /// full frame from a repeat code.
    HeaderMarkSeen,
    /// Collecting the sixteen data bits. `bits` holds the `count` bits
    /// received so far, least significant bit first.
    ReadingBits { bits: u16, count: u8, phase: BitPhase },
}

/// The bit accumulator stays below the place value of the next bit, so
/// adding the next place value never overflows.
pub open spec fn state_wf(state: DecoderState) -> bool {
    state matches DecoderState::ReadingBits { bits, count, phase } ==> {
        &&& count < 16
        &&& (bits as nat) < pow2(count as nat)
    }
}

/// Classifies a space interval as a data bit: a space near the short nominal
/// duration encodes zero, one near the long nominal duration encodes one.
/// The short band is tried first, so it wins if a template lets them overlap.
pub open spec fn space_bit(cfg: TimingConfig, interval: u32) -> Option<bool> {
    if in_band(interval, cfg.space_zero, cfg.tolerance) {
        Some(false)
    } else if in_band(interval, cfg.space_one, cfg.tolerance) {
        Some(true)
    } else {
        None
    }
}

/// Folds a completed sixteen-bit accumulator into the final outcome: the
/// high byte must be the bitwise complement of the low byte (`hi == 255 -
/// lo`), and the low byte is the command.
pub open spec fn spec_finish(full: u16) -> DecodeOutcome {
    if full / 256 == 255 - full % 256 {
        DecodeOutcome::Symbol(RawCommand { command_code: (full % 256) as u8 })
    } else {
        DecodeOutcome::Error(DecodeError::ChecksumMismatch)
    }
}

/// One transition of the decode state machine on a measured interval.
/// `polarity` is true when the line held the idle level during the interval
/// (a space), false when it held the active level (a mark).
pub open spec fn spec_step(
    cfg: TimingConfig,
    state: DecoderState,
    interval: u32,
    polarity: bool,
) -> (DecoderState, DecodeOutcome) {
    match state {
        DecoderState::SeekingHeader => {
            if !polarity && in_band(interval, cfg.header_mark, cfg.tolerance) {
                (DecoderState::HeaderMarkSeen, DecodeOutcome::NoSymbol)
            } else {
                (DecoderState::SeekingHeader, DecodeOutcome::Error(DecodeError::Timing))
            }
        },
        DecoderState::HeaderMarkSeen => {
            if polarity && in_band(interval, cfg.header_space, cfg.tolerance) {
                (
                    DecoderState::ReadingBits { bits: 0, count: 0, phase: BitPhase::AwaitMark },
                    DecodeOutcome::NoSymbol,
                )
            } else if polarity && in_band(interval, cfg.repeat_space, cfg.tolerance) {
                (DecoderState::SeekingHeader, DecodeOutcome::Repeat)
            } else {
                (DecoderState::SeekingHeader, DecodeOutcome::Error(DecodeError::Timing))
            }
        },
        DecoderState::ReadingBits { bits, count, phase } => match phase {
            BitPhase::AwaitMark => {
                if !polarity && in_band(interval, cfg.bit_mark, cfg.tolerance) {
                    (
                        DecoderState::ReadingBits { bits, count, phase: BitPhase::AwaitSpace },
                        DecodeOutcome::NoSymbol,
                    )
                } else {
                    (DecoderState::SeekingHeader, DecodeOutcome::Error(DecodeError::Timing))
                }
            },
            BitPhase::AwaitSpace => {
                if polarity && space_bit(cfg, interval) is Some {
                    let full = if space_bit(cfg, interval) == Some(true) {
                        (bits + (1u16 << (count as u16))) as u16
                    } else {
                        bits
                    };
                    if count == 15 {
                        (DecoderState::SeekingHeader, spec_finish(full))
                    } else {
                        (
                            DecoderState::ReadingBits {
                                bits: full,
                                count: (count + 1) as u8,
                                phase: BitPhase::AwaitMark,
                            },
                            DecodeOutcome::NoSymbol,
                        )
                    }
                } else {
                    (DecoderState::SeekingHeader, DecodeOutcome::Error(DecodeError::Timing))
                }
            },
        },
    }
}

/// The pulse-distance decoder: feeds on one interval per edge and produces
/// at most one decoded command per frame.
#[derive(Clone, Copy, PartialEq, Eq, Structural, Debug)]
pub struct PulseDecoder {
    /// The timing template the decoder matches intervals against.
    pub cfg: TimingConfig,
    /// The state machine position between edges.
    pub state: DecoderState,
}

impl PulseDecoder {
    /// The template is well formed and the accumulator is in range.
    pub open spec fn wf(self) -> bool {
        self.cfg.wf() && state_wf(self.state)
    }

    /// Creates a decoder that is seeking a header.
    pub fn new(cfg: TimingConfig) -> (decoder: PulseDecoder)
        requires
            cfg.wf(),
        ensures
            decoder.wf(),
            decoder.cfg == cfg,
            decoder.state == DecoderState::SeekingHeader,
    {
        PulseDecoder { cfg, state: DecoderState::SeekingHeader }
    }

    /// Consumes one measured interval and advances the state machine by
    /// exactly one `spec_step` transition.
    pub fn event(&mut self, interval: u32, polarity: bool) -> (outcome: DecodeOutcome)
        requires
            old(self).wf(),
        ensures
            final(self).wf(),
            final(self).cfg == old(self).cfg,
            (final(self).state, outcome) == spec_step(
                old(self).cfg,
                old(self).state,
                interval,
                polarity,
            ),
    {
        let cfg = self.cfg;
        match self.state {
            DecoderState::SeekingHeader => {
                if !polarity && check_band(interval, cfg.header_mark, cfg.tolerance) {
                    self.state = DecoderState::HeaderMarkSeen;
                    DecodeOutcome::NoSymbol
                } else {
                    self.state = DecoderState::SeekingHeader;
                    DecodeOutcome::Error(DecodeError::Timing)
                }
            },
            DecoderState::HeaderMarkSeen => {
                if polarity && check_band(interval, cfg.header_space, cfg.tolerance) {
                    self.state = DecoderState::ReadingBits {
                        bits: 0,
                        count: 0,
                        phase: BitPhase::AwaitMark,
                    };
                    proof {
                        lemma2_to64();
                    }
                    DecodeOutcome::NoSymbol
                } else if polarity && check_band(interval, cfg.repeat_space, cfg.tolerance) {
                    self.state = DecoderState::SeekingHeader;
                    DecodeOutcome::Repeat
                } else {
                    self.state = DecoderState::SeekingHeader;
                    DecodeOutcome::Error(DecodeError::Timing)
                }
            },
            DecoderState::ReadingBits { bits, count, phase } => match phase {
                BitPhase::AwaitMark => {
                    if !polarity && check_band(interval, cfg.bit_mark, cfg.tolerance) {
                        self.state = DecoderState::ReadingBits {
                            bits,
                            count,
                            phase: BitPhase::AwaitSpace,
                        };
                        DecodeOutcome::NoSymbol
                    } else {
                        self.state = DecoderState::SeekingHeader;
                        DecodeOutcome::Error(DecodeError::Timing)
                    }
                },
                BitPhase::AwaitSpace => {
                    let zero = polarity && check_band(interval, cfg.space_zero, cfg.tolerance);
                    let one = !zero && polarity && check_band(
                        interval,
                        cfg.space_one,
                        cfg.tolerance,
                    );
                    if zero || one {
                        proof {
                            lemma2_to64();
                            if count < 15 {
                                lemma_pow2_strictly_increases(count as nat, 15);
                            }
                            lemma_u16_shl_is_mul(1u16, count as u16);
                        }
                        let full: u16 = if one {
                            bits + (1u16 << (count as u16))
                        } else {
                            bits
                        };
                        if count == 15 {
                            self.state = DecoderState::SeekingHeader;
                            let lo: u16 = full % 256;
                            let hi: u16 = full / 256;
                            if hi == 255 - lo {
                                DecodeOutcome::Symbol(RawCommand { command_code: lo as u8 })
                            } else {
                                DecodeOutcome::Error(DecodeError::ChecksumMismatch)
                            }
                        } else {
                            proof {
                                lemma_pow2_unfold(count as nat + 1);
                            }
                            self.state = DecoderState::ReadingBits {
                                bits: full,
                                count: count + 1,
                                phase: BitPhase::AwaitMark,
                            };
                            DecodeOutcome::NoSymbol
                        }
                    } else {
                        self.state = DecoderState::SeekingHeader;
                        DecodeOutcome::Error(DecodeError::Timing)
                    }
                },
            },
        }
    }
}

} // verus!
