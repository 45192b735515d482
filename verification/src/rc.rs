use vstd::prelude::*;
use vstd::wrapping::u32_specs;

use crate::debounce::DebounceGate;
use crate::decoder::{DecodeOutcome, PulseDecoder, spec_step};
use crate::game_input::GameInput;
use crate::timing::TimingConfig;

verus! {

/// The remote-control command table: the twelve codes the hardware's remote
/// sends, mapped to their application symbols. Codes outside the table
/// yield no symbol — an unmapped code is dropped, not an error.
pub open spec fn spec_map_command(command: u8) -> Option<GameInput> {
    match command {
        22u8 => Some(GameInput::Zero),
        12u8 => Some(GameInput::One),
        24u8 => Some(GameInput::Two),
        94u8 => Some(GameInput::Three),
        8u8 => Some(GameInput::Four),
        28u8 => Some(GameInput::Five),
        90u8 => Some(GameInput::Six),
        66u8 => Some(GameInput::Seven),
        82u8 => Some(GameInput::Eight),
        74u8 => Some(GameInput::Nine),
        68u8 => Some(GameInput::Backspace),
        64u8 => Some(GameInput::Submit),
        _ => None,
    }
}

/// Law: the mapper is total and pure — it yields a symbol exactly on the
/// twelve codes of the fixed table, and `None` on every other code.
pub proof fn lemma_map_command_domain(command: u8)
    ensures
        spec_map_command(command) is Some <==> (command == 22 || command == 12 || command == 24
            || command == 94 || command == 8 || command == 28 || command == 90 || command == 66
            || command == 82 || command == 74 || command == 68 || command == 64),
{
}

/// Law: the measured interval depends only on the spacing of the two
/// captures, never on where the counter started — shifting both timestamps
/// by the same amount, wraps included, leaves the wrapping difference
/// unchanged. Decoding therefore sees only relative time.
pub proof fn lemma_interval_translation_invariant(a: u32, b: u32, shift: u32)
    ensures
        u32_specs::wrapping_sub(
            u32_specs::wrapping_add(a, shift),
            u32_specs::wrapping_add(b, shift),
        ) == u32_specs::wrapping_sub(a, b),
{
}

/// The receiver module: the pulse decoder, the debounce gate, and the two
/// words of loop state — the previous capture value and the level the line
/// held since that capture.
pub struct RcModule {
    /// The pulse-distance decode state machine.
    pub decoder: PulseDecoder,
    /// The quiet-window filter over decoded, mapped symbols.
    pub gate: DebounceGate,
    /// The capture counter value at the previous edge.
    pub last_capture: u32,
    /// The line level during the interval now elapsing: true while the line
    /// idles (a space), false during a burst (a mark). Starts true, at the
    /// idle level, and alternates with every edge.
    pub polarity: bool,
}

/// What one edge does to the whole module: the state afterwards and the
/// symbol delivered, if any. The elapsed interval is the wrapping
/// difference of the capture values; the decoder consumes it, and a
/// completed command is mapped and then offered to the debounce gate.
pub open spec fn spec_on_edge(m: RcModule, capture: u32, now: u64) -> (RcModule, Option<
    GameInput,
>) {
    let delta = u32_specs::wrapping_sub(capture, m.last_capture);
    let step = spec_step(m.decoder.cfg, m.decoder.state, delta, m.polarity);
    let stepped = RcModule {
        decoder: PulseDecoder { cfg: m.decoder.cfg, state: step.0 },
        gate: m.gate,
        last_capture: capture,
        polarity: !m.polarity,
    };
    match step.1 {
        DecodeOutcome::Symbol(raw) => match spec_map_command(raw.command_code) {
            Option::Some(symbol) => {
                let verdict = m.gate.spec_accept(now);
                if verdict.0 {
                    (
                        RcModule {
                            decoder: stepped.decoder,
                            gate: verdict.1,
                            last_capture: stepped.last_capture,
                            polarity: stepped.polarity,
                        },
                        Some(symbol),
                    )
                } else {
                    (stepped, None)
                }
            },
            Option::None => (stepped, None),
        },
        _ => (stepped, None),
    }
}

impl RcModule {
    /// The decoder's template and accumulator are in range.
    pub open spec fn wf(self) -> bool {
        self.decoder.wf()
    }

    /// Creates a module that is seeking a header, with an open gate, a zero
    /// capture origin and the line at its idle level.
    pub fn new(cfg: TimingConfig, quiet_window: u64) -> (m: RcModule)
        requires
            cfg.wf(),
        ensures
            m.wf(),
            m.decoder.cfg == cfg,
            m.decoder.state == crate::decoder::DecoderState::SeekingHeader,
            m.gate.quiet_window == quiet_window,
            m.gate.last_accepted is None,
            m.last_capture == 0,
            m.polarity == true,
    {
        RcModule {
            decoder: PulseDecoder::new(cfg),
            gate: DebounceGate::new(quiet_window),
            last_capture: 0,
            polarity: true,
        }
    }

    /// Maps a decoded command byte through the fixed table.
    pub fn map_command(&self, command: u8) -> (symbol: Option<GameInput>)
        ensures
            symbol == spec_map_command(command),
    {
        match command {
            22u8 => Some(GameInput::Zero),
            12u8 => Some(GameInput::One),
            24u8 => Some(GameInput::Two),
            94u8 => Some(GameInput::Three),
            8u8 => Some(GameInput::Four),
            28u8 => Some(GameInput::Five),
            90u8 => Some(GameInput::Six),
            66u8 => Some(GameInput::Seven),
            82u8 => Some(GameInput::Eight),
            74u8 => Some(GameInput::Nine),
            68u8 => Some(GameInput::Backspace),
            64u8 => Some(GameInput::Submit),
            _ => None,
        }
    }

    /// Consumes one captured edge: measures the elapsed interval, advances
    /// the decoder, toggles the expected line level, and — when a frame
    /// completed, mapped to a symbol and cleared the quiet window — returns that
    /// symbol for delivery. Decode errors are absorbed; the decoder has
    /// already reset itself.
    pub fn on_edge(&mut self, capture: u32, now: u64) -> (delivered: Option<GameInput>)
        requires
            old(self).wf(),
            old(self).gate.clock_ok(now),
        ensures
            final(self).wf(),
            *final(self) == spec_on_edge(*old(self), capture, now).0,
            delivered == spec_on_edge(*old(self), capture, now).1,
    {
        let delta = capture.wrapping_sub(self.last_capture);
        self.last_capture = capture;
        let polarity = self.polarity;
        self.polarity = !polarity;
        let outcome = self.decoder.event(delta, polarity);
        match outcome {
            DecodeOutcome::Symbol(raw) => {
                match self.map_command(raw.command_code) {
                    Some(symbol) => {
                        if self.gate.accept(now, symbol) {
                            Some(symbol)
                        } else {
                            None
                        }
                    },
                    None => None,
                }
            },
            _ => None,
        }
    }
}

} // verus!
