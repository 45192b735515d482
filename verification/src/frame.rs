use vstd::prelude::*;
use vstd::arithmetic::div_mod::{
    lemma_breakdown, lemma_div_denominator, lemma_fundamental_div_mod_converse, lemma_small_mod,
};
use vstd::arithmetic::mul::{lemma_mul_is_associative, lemma_mul_is_distributive_add};
use vstd::arithmetic::power2::{
    lemma2_to64, lemma_pow2_pos, lemma_pow2_strictly_increases, lemma_pow2_unfold, pow2,
};
use vstd::bits::lemma_u16_shl_is_mul;

use crate::decoder::{
    BitPhase, DecodeError, DecodeOutcome, DecoderState, RawCommand, space_bit, spec_finish,
    spec_step,
};
use crate::timing::{TimingConfig, in_band};

verus! {

/// One measured interval between two successive edges, with the level the
/// line held during it: `polarity` is true for a space (idle level), false
/// for a mark (active burst).
#[derive(Clone, Copy, PartialEq, Eq, Structural, Debug)]
pub struct Pulse {
    pub interval: u32,
    pub polarity: bool,
}

/// The state the decoder reaches after feeding the pulses of `s` in order,
/// starting from `state`.
pub open spec fn run_state(cfg: TimingConfig, state: DecoderState, s: Seq<Pulse>) -> DecoderState
    decreases s.len(),
{
    if s.len() == 0 {
        state
    } else {
        run_state(cfg, spec_step(cfg, state, s[0].interval, s[0].polarity).0, s.drop_first())
    }
}

/// The outcome each pulse of `s` produces, fed in order starting from
/// `state`.
pub open spec fn run_outcomes(cfg: TimingConfig, state: DecoderState, s: Seq<Pulse>) -> Seq<
    DecodeOutcome,
>
    decreases s.len(),
{
    if s.len() == 0 {
        Seq::empty()
    } else {
        seq![spec_step(cfg, state, s[0].interval, s[0].polarity).1] + run_outcomes(
            cfg,
            spec_step(cfg, state, s[0].interval, s[0].polarity).0,
            s.drop_first(),
        )
    }
}

/// Feeding pulses yields one outcome per pulse.
pub proof fn lemma_run_outcomes_len(cfg: TimingConfig, state: DecoderState, s: Seq<Pulse>)
    ensures
        run_outcomes(cfg, state, s).len() == s.len(),
    decreases s.len(),
{
    if s.len() > 0 {
        lemma_run_outcomes_len(
            cfg,
            spec_step(cfg, state, s[0].interval, s[0].polarity).0,
            s.drop_first(),
        );
    }
}

/// Unfolds a run over its first two pulses.
proof fn lemma_run_two_steps(cfg: TimingConfig, state: DecoderState, s: Seq<Pulse>)
    requires
        s.len() >= 2,
    ensures
        ({
            let step0 = spec_step(cfg, state, s[0].interval, s[0].polarity);
            let step1 = spec_step(cfg, step0.0, s[1].interval, s[1].polarity);
            &&& run_state(cfg, state, s) == run_state(cfg, step1.0, s.skip(2))
            &&& run_outcomes(cfg, state, s) == seq![step0.1, step1.1] + run_outcomes(
                cfg,
                step1.0,
                s.skip(2),
            )
        }),
{
    let step0 = spec_step(cfg, state, s[0].interval, s[0].polarity);
    let s1 = s.drop_first();
    let step1 = spec_step(cfg, step0.0, s[1].interval, s[1].polarity);
    assert(s1[0] == s[1]);
    assert(s1.drop_first() =~= s.skip(2));
    assert(run_state(cfg, state, s) == run_state(cfg, step0.0, s1));
    assert(run_state(cfg, step0.0, s1) == run_state(cfg, step1.0, s1.drop_first()));
    assert(run_outcomes(cfg, state, s) == seq![step0.1] + run_outcomes(cfg, step0.0, s1));
    assert(run_outcomes(cfg, step0.0, s1) == seq![step1.1] + run_outcomes(
        cfg,
        step1.0,
        s1.drop_first(),
    ));
    assert(seq![step0.1] + (seq![step1.1] + run_outcomes(cfg, step1.0, s.skip(2))) =~= seq![
        step0.1,
        step1.1,
    ] + run_outcomes(cfg, step1.0, s.skip(2)));
}

/// The value of a bit sequence read least significant bit first.
pub open spec fn bits_val(b: Seq<bool>) -> nat
    decreases b.len(),
{
    if b.len() == 0 {
        0
    } else {
        (if b[0] {
            1nat
        } else {
            0nat
        }) + 2 * bits_val(b.drop_first())
    }
}

/// Bit `i` of `value`, in the LSB-first transmission order.
pub open spec fn nat_bit(value: nat, i: nat) -> bool {
    (value / pow2(i)) % 2 == 1
}

/// The eight bits of `code`, least significant first.
pub open spec fn byte_bits(code: u8) -> Seq<bool> {
    Seq::new(8, |i: int| nat_bit(code as nat, i as nat))
}

/// The sixteen bits of a full frame carrying `code`: the code byte, then
/// its bitwise complement, each least significant bit first.
pub open spec fn frame_bits(code: u8) -> Seq<bool> {
    byte_bits(code) + Seq::new(8, |i: int| !nat_bit(code as nat, i as nat))
}

/// Pulse pair `i` of `s` encodes bit `b[i]`: a mark in the bit-mark band,
/// then a space that classifies as that bit value.
pub open spec fn bit_pair_ok(cfg: TimingConfig, s: Seq<Pulse>, b: Seq<bool>, i: int) -> bool {
    &&& !s[2 * i].polarity
    &&& in_band(s[2 * i].interval, cfg.bit_mark, cfg.tolerance)
    &&& s[2 * i + 1].polarity
    &&& space_bit(cfg, s[2 * i + 1].interval) == Some(b[i])
}

/// `s` encodes exactly the bits of `b`, one mark/space pair per bit.
pub open spec fn pulses_encode_bits(cfg: TimingConfig, s: Seq<Pulse>, b: Seq<bool>) -> bool {
    &&& s.len() == 2 * b.len()
    &&& forall|i: int| 0 <= i < b.len() ==> bit_pair_ok(cfg, s, b, i)
}

/// The two header pulses of a full frame: a mark in the header-mark band,
/// then a space in the header-space band.
pub open spec fn header_ok(cfg: TimingConfig, mark: Pulse, space: Pulse) -> bool {
    &&& !mark.polarity
    &&& in_band(mark.interval, cfg.header_mark, cfg.tolerance)
    &&& space.polarity
    &&& in_band(space.interval, cfg.header_space, cfg.tolerance)
}

/// `s` matches the full timing template of one frame carrying the bits of
/// `b`: header mark and space, then sixteen encoded bits.
pub open spec fn frame_pulses(cfg: TimingConfig, s: Seq<Pulse>, b: Seq<bool>) -> bool {
    &&& b.len() == 16
    &&& s.len() == 34
    &&& header_ok(cfg, s[0], s[1])
    &&& pulses_encode_bits(cfg, s.skip(2), b)
}

/// A bit sequence is worth less than one in its next place value.
proof fn lemma_bits_val_bound(b: Seq<bool>)
    ensures
        bits_val(b) < pow2(b.len()),
    decreases b.len(),
{
    if b.len() == 0 {
        lemma2_to64();
    } else {
        lemma_bits_val_bound(b.drop_first());
        lemma_pow2_unfold(b.len());
    }
}

/// Splitting a bit sequence at `k` splits its value at place `2^k`.
proof fn lemma_bits_val_split(b: Seq<bool>, k: int)
    requires
        0 <= k <= b.len(),
    ensures
        bits_val(b) == bits_val(b.take(k)) + pow2(k as nat) * bits_val(b.skip(k)),
    decreases k,
{
    if k == 0 {
        assert(b.skip(0) =~= b);
        assert(b.take(0).len() == 0);
        lemma2_to64();
        assert(bits_val(b.take(k)) == 0);
        assert(pow2(k as nat) == 1);
        assert(pow2(k as nat) * bits_val(b.skip(k)) == bits_val(b));
    } else {
        let bdf = b.drop_first();
        lemma_bits_val_split(bdf, k - 1);
        assert(b.take(k).drop_first() =~= bdf.take(k - 1));
        assert(b.skip(k) =~= bdf.skip(k - 1));
        assert(b.take(k)[0] == b[0]);
        let rest = bits_val(bdf.skip(k - 1));
        lemma_pow2_unfold(k as nat);
        lemma_mul_is_associative(2, pow2((k - 1) as nat) as int, rest as int);
        assert(bits_val(b.take(k)) == (if b[0] {
            1nat
        } else {
            0nat
        }) + 2 * bits_val(bdf.take(k - 1)));
        assert(bits_val(b) == (if b[0] {
            1nat
        } else {
            0nat
        }) + 2 * bits_val(bdf));
        assert(2 * bits_val(bdf) == 2 * bits_val(bdf.take(k - 1)) + 2 * (pow2((k - 1) as nat)
            * rest));
        assert(2 * (pow2((k - 1) as nat) * rest) == pow2(k as nat) * rest);
        assert(bits_val(b.skip(k)) == rest);
        assert(pow2(k as nat) * bits_val(b.skip(k)) == pow2(k as nat) * rest);
        assert(bits_val(b) == bits_val(b.take(k)) + pow2(k as nat) * rest);
    }
}

/// The low `k` bits of a value, read LSB first, are worth that value modulo
/// `2^k`.
proof fn lemma_bits_val_of_nat(value: nat, k: nat)
    ensures
        bits_val(Seq::new(k, |i: int| nat_bit(value, i as nat))) == value % pow2(k),
    decreases k,
{
    let s = Seq::new(k, |i: int| nat_bit(value, i as nat));
    lemma2_to64();
    if k == 0 {
        assert(value % pow2(0) == 0);
    } else {
        let half = value / 2;
        lemma_bits_val_of_nat(half, (k - 1) as nat);
        let shifted = Seq::new((k - 1) as nat, |i: int| nat_bit(half, i as nat));
        assert forall|i: int| 0 <= i < k - 1 implies s.drop_first()[i] == shifted[i] by {
            lemma_pow2_pos(i as nat);
            lemma_pow2_unfold((i + 1) as nat);
            lemma_div_denominator(value as int, 2, pow2(i as nat) as int);
        }
        assert(s.drop_first() =~= shifted);
        assert(s[0] == nat_bit(value, 0));
        assert(value / pow2(0) == value);
        lemma_pow2_pos((k - 1) as nat);
        lemma_pow2_unfold(k);
        lemma_breakdown(value as int, 2, pow2((k - 1) as nat) as int);
    }
}

/// Negating every bit subtracts the value from the all-ones value.
proof fn lemma_bits_val_negate(b: Seq<bool>)
    ensures
        bits_val(Seq::new(b.len(), |i: int| !b[i])) == pow2(b.len()) - 1 - bits_val(b),
    decreases b.len(),
{
    let n = Seq::new(b.len(), |i: int| !b[i]);
    if b.len() == 0 {
        lemma2_to64();
    } else {
        let bdf = b.drop_first();
        lemma_bits_val_negate(bdf);
        assert(n.drop_first() =~= Seq::new(bdf.len(), |i: int| !bdf[i]));
        lemma_pow2_unfold(b.len());
    }
}

/// The eight bits of a byte are worth the byte itself.
proof fn lemma_byte_bits_val(code: u8)
    ensures
        bits_val(byte_bits(code)) == code,
{
    lemma_bits_val_of_nat(code as nat, 8);
    lemma2_to64();
    lemma_small_mod(code as nat, 256);
}

/// A full frame's sixteen bits are worth the code plus its complement in
/// the high byte.
proof fn lemma_frame_bits_val(code: u8)
    ensures
        frame_bits(code).len() == 16,
        bits_val(frame_bits(code)) == code + 256 * (255 - code),
{
    let lowb = byte_bits(code);
    let highb = Seq::new(8, |i: int| !nat_bit(code as nat, i as nat));
    let fb = frame_bits(code);
    lemma_bits_val_split(fb, 8);
    assert(fb.take(8) =~= lowb);
    assert(fb.skip(8) =~= highb);
    lemma_byte_bits_val(code);
    assert(highb =~= Seq::new(lowb.len(), |i: int| !lowb[i]));
    lemma_bits_val_negate(lowb);
    lemma2_to64();
}

/// Feeding the encoded pulses of the remaining bits `b` into a decoder that
/// has already collected `count` bits into `bits` runs the frame to its
/// end: every pulse but the last is silent, and the last pulse yields the
/// complement check's verdict on the completed sixteen-bit accumulator.
proof fn lemma_run_reading_bits(cfg: TimingConfig, b: Seq<bool>, s: Seq<Pulse>, bits: u16, count: u8)
    requires
        count < 16,
        b.len() + count == 16,
        (bits as nat) < pow2(count as nat),
        pulses_encode_bits(cfg, s, b),
    ensures
        ({
            let state0 = DecoderState::ReadingBits { bits, count, phase: BitPhase::AwaitMark };
            let full = bits as nat + pow2(count as nat) * bits_val(b);
            &&& full < 65536
            &&& run_state(cfg, state0, s) == DecoderState::SeekingHeader
            &&& run_outcomes(cfg, state0, s).len() == s.len()
            &&& forall|i: int|
                0 <= i < s.len() - 1 ==> run_outcomes(cfg, state0, s)[i]
                    == DecodeOutcome::NoSymbol
            &&& run_outcomes(cfg, state0, s)[s.len() - 1] == spec_finish(full as u16)
        }),
    decreases b.len(),
{
    let state0 = DecoderState::ReadingBits { bits, count, phase: BitPhase::AwaitMark };
    let full = bits as nat + pow2(count as nat) * bits_val(b);
    let bdf = b.drop_first();
    assert(bit_pair_ok(cfg, s, b, 0));
    let p0 = s[0];
    let p1 = s[1];

    // The first pulse is the bit mark: it only advances the phase.
    let step0 = spec_step(cfg, state0, p0.interval, p0.polarity);
    let state1 = DecoderState::ReadingBits { bits, count, phase: BitPhase::AwaitSpace };
    assert(step0 == (state1, DecodeOutcome::NoSymbol));

    // The second pulse is the space carrying bit b[0].
    lemma2_to64();
    if count < 15 {
        lemma_pow2_strictly_increases(count as nat, 15);
    }
    lemma_u16_shl_is_mul(1u16, count as u16);
    let nb: u16 = if b[0] {
        (bits + (1u16 << (count as u16))) as u16
    } else {
        bits
    };
    assert(nb as nat == bits as nat + pow2(count as nat) * (if b[0] {
        1nat
    } else {
        0nat
    }));
    let step1 = spec_step(cfg, state1, p1.interval, p1.polarity);

    // The accumulator keeps tracking the frame value.
    let rest = bits_val(bdf);
    lemma_pow2_unfold(count as nat + 1);
    lemma_mul_is_distributive_add(
        pow2(count as nat) as int,
        if b[0] { 1int } else { 0int },
        2 * rest as int,
    );
    lemma_mul_is_associative(pow2(count as nat) as int, 2, rest as int);
    assert(full == nb as nat + pow2(count as nat + 1) * rest);

    if count == 15 {
        assert(bdf.len() == 0);
        assert(rest == 0);
        assert(full == nb as nat);
        assert(step1 == (DecoderState::SeekingHeader, spec_finish(nb)));
        assert(s.len() == 2);
        lemma_run_two_steps(cfg, state0, s);
        assert(s.skip(2).len() == 0);
        let outs = run_outcomes(cfg, state0, s);
        assert(outs == seq![DecodeOutcome::NoSymbol, spec_finish(nb)] + run_outcomes(
            cfg,
            DecoderState::SeekingHeader,
            s.skip(2),
        ));
        assert(outs =~= seq![DecodeOutcome::NoSymbol, spec_finish(nb)]);
        assert(outs[1] == spec_finish(full as u16));
    } else {
        let count1 = (count + 1) as u8;
        let state2 = DecoderState::ReadingBits { bits: nb, count: count1, phase: BitPhase::AwaitMark };
        assert(step1 == (state2, DecodeOutcome::NoSymbol));
        let tail = s.skip(2);
        assert forall|i: int| 0 <= i < bdf.len() implies bit_pair_ok(cfg, tail, bdf, i) by {
            assert(bit_pair_ok(cfg, s, b, i + 1));
            assert(tail[2 * i] == s[2 * (i + 1)]);
            assert(tail[2 * i + 1] == s[2 * (i + 1) + 1]);
        }
        assert(pulses_encode_bits(cfg, tail, bdf));
        assert(count1 as nat == count as nat + 1);
        assert((nb as nat) < pow2(count1 as nat));
        lemma_run_reading_bits(cfg, bdf, tail, nb, count1);
        let fullr = nb as nat + pow2(count1 as nat) * bits_val(bdf);
        assert(fullr == full);

        lemma_run_two_steps(cfg, state0, s);
        assert(run_state(cfg, state0, s) == run_state(cfg, state2, tail));
        lemma_run_outcomes_len(cfg, state2, tail);
        let outs = run_outcomes(cfg, state0, s);
        let outr = run_outcomes(cfg, state2, tail);
        assert(outs == seq![DecodeOutcome::NoSymbol, DecodeOutcome::NoSymbol] + outr);
        assert forall|i: int| 0 <= i < s.len() - 1 implies outs[i] == DecodeOutcome::NoSymbol by {
            if i >= 2 {
                assert(outs[i] == outr[i - 2]);
            }
        }
        assert(outs[s.len() - 1] == outr[tail.len() - 1]);
    }
}

/// Law: every pulse sequence that matches the frame timing template for a
/// command byte — wherever it starts in time, since only intervals enter —
/// decodes to exactly one command symbol, emitted on the final pulse, with
/// the decoder back at `SeekingHeader` afterwards.
pub proof fn lemma_valid_frame_decodes(cfg: TimingConfig, code: u8, s: Seq<Pulse>)
    requires
        frame_pulses(cfg, s, frame_bits(code)),
    ensures
        run_state(cfg, DecoderState::SeekingHeader, s) == DecoderState::SeekingHeader,
        run_outcomes(cfg, DecoderState::SeekingHeader, s).len() == 34,
        forall|i: int|
            0 <= i < 33 ==> run_outcomes(cfg, DecoderState::SeekingHeader, s)[i]
                == DecodeOutcome::NoSymbol,
        run_outcomes(cfg, DecoderState::SeekingHeader, s)[33] == DecodeOutcome::Symbol(
            RawCommand { command_code: code },
        ),
{
    let fb = frame_bits(code);
    lemma_frame_bits_val(code);
    let state0 = DecoderState::SeekingHeader;
    let p0 = s[0];
    let p1 = s[1];
    let state1 = DecoderState::HeaderMarkSeen;
    let state2 = DecoderState::ReadingBits { bits: 0, count: 0, phase: BitPhase::AwaitMark };
    assert(spec_step(cfg, state0, p0.interval, p0.polarity) == (state1, DecodeOutcome::NoSymbol));
    assert(spec_step(cfg, state1, p1.interval, p1.polarity) == (state2, DecodeOutcome::NoSymbol));

    let tail = s.skip(2);
    lemma2_to64();
    lemma_run_reading_bits(cfg, fb, tail, 0, 0);
    let full = 0 as nat + pow2(0) * bits_val(fb);
    assert(full == code + 256 * (255 - code));
    lemma_fundamental_div_mod_converse(full as int, 256, 255 - code as int, code as int);
    assert(full % 256 == code);
    assert(full / 256 == 255 - code);
    assert(spec_finish(full as u16) == DecodeOutcome::Symbol(RawCommand { command_code: code }));

    lemma_run_two_steps(cfg, state0, s);
    assert(run_state(cfg, state0, s) == run_state(cfg, state2, tail));
    lemma_run_outcomes_len(cfg, state2, tail);
    let outs = run_outcomes(cfg, state0, s);
    let outr = run_outcomes(cfg, state2, tail);
    assert(outs == seq![DecodeOutcome::NoSymbol, DecodeOutcome::NoSymbol] + outr);
    assert forall|i: int| 0 <= i < 33 implies outs[i] == DecodeOutcome::NoSymbol by {
        if i >= 2 {
            assert(outs[i] == outr[i - 2]);
        }
    }
    assert(outs[33] == outr[31]);
}

/// Law: a frame whose sixteen bits fail the complement check yields a
/// checksum error on its final pulse and never a symbol, and the decoder is
/// back at `SeekingHeader` afterwards.
pub proof fn lemma_checksum_mismatch_rejected(cfg: TimingConfig, b: Seq<bool>, s: Seq<Pulse>)
    requires
        frame_pulses(cfg, s, b),
        bits_val(b.skip(8)) != 255 - bits_val(b.take(8)),
    ensures
        run_state(cfg, DecoderState::SeekingHeader, s) == DecoderState::SeekingHeader,
        run_outcomes(cfg, DecoderState::SeekingHeader, s).len() == 34,
        forall|i: int|
            0 <= i < 34 ==> !(run_outcomes(cfg, DecoderState::SeekingHeader, s)[i] is Symbol),
        run_outcomes(cfg, DecoderState::SeekingHeader, s)[33] == DecodeOutcome::Error(
            DecodeError::ChecksumMismatch,
        ),
{
    let state0 = DecoderState::SeekingHeader;
    let p0 = s[0];
    let p1 = s[1];
    let state1 = DecoderState::HeaderMarkSeen;
    let state2 = DecoderState::ReadingBits { bits: 0, count: 0, phase: BitPhase::AwaitMark };
    assert(spec_step(cfg, state0, p0.interval, p0.polarity) == (state1, DecodeOutcome::NoSymbol));
    assert(spec_step(cfg, state1, p1.interval, p1.polarity) == (state2, DecodeOutcome::NoSymbol));

    let tail = s.skip(2);
    lemma2_to64();
    lemma_run_reading_bits(cfg, b, tail, 0, 0);
    let full = 0 as nat + pow2(0) * bits_val(b);
    let lo = bits_val(b.take(8));
    let hi = bits_val(b.skip(8));
    lemma_bits_val_split(b, 8);
    lemma_bits_val_bound(b.take(8));
    lemma_bits_val_bound(b.skip(8));
    assert(full == lo + 256 * hi);
    lemma_fundamental_div_mod_converse(full as int, 256, hi as int, lo as int);
    assert(spec_finish(full as u16) == DecodeOutcome::Error(DecodeError::ChecksumMismatch));

    lemma_run_two_steps(cfg, state0, s);
    assert(run_state(cfg, state0, s) == run_state(cfg, state2, tail));
    lemma_run_outcomes_len(cfg, state2, tail);
    let outs = run_outcomes(cfg, state0, s);
    let outr = run_outcomes(cfg, state2, tail);
    assert(outs == seq![DecodeOutcome::NoSymbol, DecodeOutcome::NoSymbol] + outr);
    assert forall|i: int| 0 <= i < 34 implies !(outs[i] is Symbol) by {
        if i >= 2 {
            assert(outs[i] == outr[i - 2]);
        }
    }
    assert(outs[33] == outr[31]);
}

/// The bands the decoder recognizes in a given state; any pulse outside
/// them is a timing violation there.
pub open spec fn step_recognizes(cfg: TimingConfig, state: DecoderState, p: Pulse) -> bool {
    match state {
        DecoderState::SeekingHeader => !p.polarity && in_band(
            p.interval,
            cfg.header_mark,
            cfg.tolerance,
        ),
        DecoderState::HeaderMarkSeen => p.polarity && (in_band(
            p.interval,
            cfg.header_space,
            cfg.tolerance,
        ) || in_band(p.interval, cfg.repeat_space, cfg.tolerance)),
        DecoderState::ReadingBits { phase, .. } => match phase {
            BitPhase::AwaitMark => !p.polarity && in_band(p.interval, cfg.bit_mark, cfg.tolerance),
            BitPhase::AwaitSpace => p.polarity && space_bit(cfg, p.interval) is Some,
        },
    }
}

/// Law: a pulse that matches no band recognized in the current state — in
/// whatever state, with whatever bits accumulated — yields a timing error
/// and resets the decoder to `SeekingHeader`.
pub proof fn lemma_unrecognized_pulse_resets(cfg: TimingConfig, state: DecoderState, p: Pulse)
    requires
        !step_recognizes(cfg, state, p),
    ensures
        spec_step(cfg, state, p.interval, p.polarity) == (
            DecoderState::SeekingHeader,
            DecodeOutcome::Error(DecodeError::Timing),
        ),
{
}

/// Law: after a timing error the very next valid frame decodes cleanly —
/// no residual bit state leaks across the reset.
pub proof fn lemma_resync_after_error(
    cfg: TimingConfig,
    state: DecoderState,
    p: Pulse,
    code: u8,
    s: Seq<Pulse>,
)
    requires
        !step_recognizes(cfg, state, p),
        frame_pulses(cfg, s, frame_bits(code)),
    ensures
        run_state(cfg, state, seq![p] + s) == DecoderState::SeekingHeader,
        run_outcomes(cfg, state, seq![p] + s).len() == 35,
        run_outcomes(cfg, state, seq![p] + s)[0] == DecodeOutcome::Error(DecodeError::Timing),
        run_outcomes(cfg, state, seq![p] + s)[34] == DecodeOutcome::Symbol(
            RawCommand { command_code: code },
        ),
{
    let all = seq![p] + s;
    lemma_unrecognized_pulse_resets(cfg, state, p);
    assert(all[0] == p);
    assert(all.drop_first() =~= s);
    lemma_valid_frame_decodes(cfg, code, s);
    lemma_run_outcomes_len(cfg, state, all);
    assert(run_outcomes(cfg, state, all)[34] == run_outcomes(
        cfg,
        DecoderState::SeekingHeader,
        s,
    )[33]);
}

} // verus!
