use ir_input::decoder::{DecodeError, DecodeOutcome, PulseDecoder, RawCommand};
use ir_input::timing::TimingConfig;

/// The (interval, polarity) pulses of one full frame carrying `code`:
/// header mark and space, then sixteen bits — the code byte and its bitwise
/// complement, least significant bit first. Polarity is false for marks,
/// true for spaces.
fn frame_pulses(code: u8) -> Vec<(u32, bool)> {
    let mut pulses: Vec<(u32, bool)> = vec![(9000, false), (4500, true)];
    let word: u16 = (code as u16) | (((!code) as u16) << 8);
    for i in 0..16 {
        pulses.push((560, false));
        let one = (word >> i) & 1 == 1;
        pulses.push((if one { 1690 } else { 560 }, true));
    }
    pulses
}

fn feed(decoder: &mut PulseDecoder, pulses: &[(u32, bool)]) -> Vec<DecodeOutcome> {
    pulses.iter().map(|&(interval, polarity)| decoder.event(interval, polarity)).collect()
}

#[test]
fn valid_frame_yields_exactly_one_symbol() {
    let mut decoder = PulseDecoder::new(TimingConfig::nec());
    let outcomes = feed(&mut decoder, &frame_pulses(12));
    assert_eq!(outcomes.len(), 34);
    for outcome in &outcomes[..33] {
        assert_eq!(*outcome, DecodeOutcome::NoSymbol);
    }
    assert_eq!(outcomes[33], DecodeOutcome::Symbol(RawCommand { command_code: 12 }));
}

#[test]
fn every_command_byte_round_trips() {
    let mut decoder = PulseDecoder::new(TimingConfig::nec());
    for code in [0u8, 1, 12, 22, 64, 68, 127, 128, 200, 255] {
        let outcomes = feed(&mut decoder, &frame_pulses(code));
        assert_eq!(
            outcomes[33],
            DecodeOutcome::Symbol(RawCommand { command_code: code }),
            "code {code}"
        );
    }
}

#[test]
fn out_of_band_interval_is_a_timing_error() {
    let mut decoder = PulseDecoder::new(TimingConfig::nec());
    // An idle gap while seeking a header matches no band.
    assert_eq!(
        decoder.event(123_456, true),
        DecodeOutcome::Error(DecodeError::Timing)
    );
    // A malformed bit space aborts a frame midway.
    assert_eq!(decoder.event(9000, false), DecodeOutcome::NoSymbol);
    assert_eq!(decoder.event(4500, true), DecodeOutcome::NoSymbol);
    assert_eq!(decoder.event(560, false), DecodeOutcome::NoSymbol);
    assert_eq!(
        decoder.event(3000, true),
        DecodeOutcome::Error(DecodeError::Timing)
    );
    // The decoder has reset: the very next valid frame decodes cleanly.
    let outcomes = feed(&mut decoder, &frame_pulses(94));
    assert_eq!(outcomes[33], DecodeOutcome::Symbol(RawCommand { command_code: 94 }));
}

#[test]
fn corrupted_complement_is_a_checksum_mismatch() {
    let mut decoder = PulseDecoder::new(TimingConfig::nec());
    let mut pulses = frame_pulses(12);
    // Flip the last complement bit: swap its space duration.
    let last = pulses.len() - 1;
    pulses[last].0 = if pulses[last].0 == 1690 { 560 } else { 1690 };
    let outcomes = feed(&mut decoder, &pulses);
    for outcome in &outcomes {
        assert!(!matches!(outcome, DecodeOutcome::Symbol(_)));
    }
    assert_eq!(
        outcomes[33],
        DecodeOutcome::Error(DecodeError::ChecksumMismatch)
    );
    // No residue: a valid frame right after decodes.
    let outcomes = feed(&mut decoder, &frame_pulses(12));
    assert_eq!(outcomes[33], DecodeOutcome::Symbol(RawCommand { command_code: 12 }));
}

#[test]
fn repeat_code_is_reported_as_repeat() {
    let mut decoder = PulseDecoder::new(TimingConfig::nec());
    assert_eq!(decoder.event(9000, false), DecodeOutcome::NoSymbol);
    assert_eq!(decoder.event(2250, true), DecodeOutcome::Repeat);
    // And the decoder is back to seeking: a full frame still decodes.
    let outcomes = feed(&mut decoder, &frame_pulses(22));
    assert_eq!(outcomes[33], DecodeOutcome::Symbol(RawCommand { command_code: 22 }));
}

#[test]
fn tolerance_band_edges() {
    let mut decoder = PulseDecoder::new(TimingConfig::nec());
    // 25 % below and above the 9000-tick header mark are still inside.
    assert_eq!(decoder.event(6750, false), DecodeOutcome::NoSymbol);
    let mut decoder = PulseDecoder::new(TimingConfig::nec());
    assert_eq!(decoder.event(11250, false), DecodeOutcome::NoSymbol);
    // One tick beyond either bound is outside.
    let mut decoder = PulseDecoder::new(TimingConfig::nec());
    assert_eq!(
        decoder.event(6749, false),
        DecodeOutcome::Error(DecodeError::Timing)
    );
    let mut decoder = PulseDecoder::new(TimingConfig::nec());
    assert_eq!(
        decoder.event(11251, false),
        DecodeOutcome::Error(DecodeError::Timing)
    );
}

#[test]
fn header_mark_with_wrong_polarity_is_rejected() {
    let mut decoder = PulseDecoder::new(TimingConfig::nec());
    // A 9000-tick interval at the idle level is not a header mark.
    assert_eq!(
        decoder.event(9000, true),
        DecodeOutcome::Error(DecodeError::Timing)
    );
}

#[test]
fn scaled_template_decodes_scaled_frames() {
    // The template is configuration: a compressed timing still decodes.
    let cfg = TimingConfig {
        header_mark: 900,
        header_space: 450,
        repeat_space: 225,
        bit_mark: 56,
        space_zero: 56,
        space_one: 169,
        tolerance: 25,
    };
    let mut decoder = PulseDecoder::new(cfg);
    let mut pulses: Vec<(u32, bool)> = vec![(900, false), (450, true)];
    let code = 74u8;
    let word: u16 = (code as u16) | (((!code) as u16) << 8);
    for i in 0..16 {
        pulses.push((56, false));
        pulses.push((if (word >> i) & 1 == 1 { 169 } else { 56 }, true));
    }
    let outcomes = feed(&mut decoder, &pulses);
    assert_eq!(outcomes[33], DecodeOutcome::Symbol(RawCommand { command_code: 74 }));
}
