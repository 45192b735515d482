use ir_input::game_input::GameInput;
use ir_input::rc::RcModule;
use ir_input::timing::TimingConfig;

/// Appends the edge timestamps of one full frame carrying `code`, starting
/// at the capture value after `*capture`: first the edge that opens the
/// header mark, then one edge per interval, through the trailing stop mark
/// that closes the last bit space. Captures wrap like the hardware counter.
fn push_frame_edges(edges: &mut Vec<u32>, capture: &mut u32, idle_gap: u32, code: u8) {
    *capture = capture.wrapping_add(idle_gap);
    edges.push(*capture);
    let mut intervals: Vec<u32> = vec![9000, 4500];
    let word: u16 = (code as u16) | (((!code) as u16) << 8);
    for i in 0..16 {
        intervals.push(560);
        intervals.push(if (word >> i) & 1 == 1 { 1690 } else { 560 });
    }
    intervals.push(560);
    for interval in intervals {
        *capture = capture.wrapping_add(interval);
        edges.push(*capture);
    }
}

fn feed_frame(module: &mut RcModule, capture: &mut u32, idle_gap: u32, code: u8, now: u64) -> Vec<
    GameInput,
> {
    let mut edges = Vec::new();
    push_frame_edges(&mut edges, capture, idle_gap, code);
    let mut delivered = Vec::new();
    for edge in edges {
        if let Some(symbol) = module.on_edge(edge, now) {
            delivered.push(symbol);
        }
    }
    delivered
}

#[test]
fn end_to_end_frame_then_repeat_then_late_repeat() {
    let mut module = RcModule::new(TimingConfig::nec(), 300);
    let mut capture: u32 = 100_000;
    // A full frame for code 12 delivers exactly one symbol: One.
    let delivered = feed_frame(&mut module, &mut capture, 40_000, 12, 1000);
    assert_eq!(delivered, vec![GameInput::One]);
    // The same frame 50 ms later is inside the quiet window: nothing.
    let delivered = feed_frame(&mut module, &mut capture, 40_000, 12, 1050);
    assert_eq!(delivered, vec![]);
    // 350 ms after the first delivery it is accepted again.
    let delivered = feed_frame(&mut module, &mut capture, 40_000, 12, 1350);
    assert_eq!(delivered, vec![GameInput::One]);
}

#[test]
fn decoding_is_independent_of_the_capture_origin() {
    // The same frame decodes wherever the counter starts — even when the
    // 32-bit capture counter wraps in the middle of the frame.
    for start in [0u32, 12_345, u32::MAX - 20_000, u32::MAX - 3] {
        let mut module = RcModule::new(TimingConfig::nec(), 300);
        let mut capture = start;
        let delivered = feed_frame(&mut module, &mut capture, 40_000, 28, 77);
        assert_eq!(delivered, vec![GameInput::Five], "start {start}");
    }
}

#[test]
fn corrupted_complement_delivers_nothing_and_resyncs() {
    let mut module = RcModule::new(TimingConfig::nec(), 300);
    let mut capture: u32 = 0;
    // Build a frame for code 12 and corrupt one complement bit's space.
    let mut edges = Vec::new();
    push_frame_edges(&mut edges, &mut capture, 40_000, 12);
    // Pull the last two edges 1130 ticks earlier: the last complement
    // bit's space shrinks from 1690 to 560 ticks, flipping the bit it
    // encodes, while the stop mark keeps its length.
    let last = edges.len() - 1;
    edges[last - 1] = edges[last - 1].wrapping_sub(1130);
    edges[last] = edges[last].wrapping_sub(1130);
    capture = capture.wrapping_sub(1130);
    let mut delivered = Vec::new();
    for edge in edges {
        if let Some(symbol) = module.on_edge(edge, 5) {
            delivered.push(symbol);
        }
    }
    assert_eq!(delivered, vec![]);
    // The decoder is back at seeking: the next valid frame delivers.
    let delivered = feed_frame(&mut module, &mut capture, 40_000, 12, 6);
    assert_eq!(delivered, vec![GameInput::One]);
}

#[test]
fn unmapped_code_is_dropped_without_touching_the_gate() {
    let mut module = RcModule::new(TimingConfig::nec(), 300);
    let mut capture: u32 = 0;
    // Code 3 is not in the table: decoded, but no symbol and no delivery.
    let delivered = feed_frame(&mut module, &mut capture, 40_000, 3, 1000);
    assert_eq!(delivered, vec![]);
    // No candidate was ever offered for debouncing, so the next mapped frame is a first
    // acceptance even immediately afterwards.
    let delivered = feed_frame(&mut module, &mut capture, 40_000, 64, 1001);
    assert_eq!(delivered, vec![GameInput::Submit]);
}

#[test]
fn different_symbols_inside_the_window_are_still_suppressed() {
    let mut module = RcModule::new(TimingConfig::nec(), 300);
    let mut capture: u32 = 0;
    let delivered = feed_frame(&mut module, &mut capture, 40_000, 12, 1000);
    assert_eq!(delivered, vec![GameInput::One]);
    // A different button inside the quiet window is suppressed too.
    let delivered = feed_frame(&mut module, &mut capture, 40_000, 24, 1100);
    assert_eq!(delivered, vec![]);
}

#[test]
fn map_command_matches_the_fixed_table() {
    let module = RcModule::new(TimingConfig::nec(), 300);
    let table = [
        (22u8, GameInput::Zero),
        (12, GameInput::One),
        (24, GameInput::Two),
        (94, GameInput::Three),
        (8, GameInput::Four),
        (28, GameInput::Five),
        (90, GameInput::Six),
        (66, GameInput::Seven),
        (82, GameInput::Eight),
        (74, GameInput::Nine),
        (68, GameInput::Backspace),
        (64, GameInput::Submit),
    ];
    for (code, symbol) in table {
        assert_eq!(module.map_command(code), Some(symbol), "code {code}");
    }
    for code in 0..=255u8 {
        if !table.iter().any(|&(c, _)| c == code) {
            assert_eq!(module.map_command(code), None, "code {code}");
        }
    }
}

#[test]
fn ascii_codes_follow_the_symbols() {
    assert_eq!(GameInput::One.ascii_code(), b'1');
    assert_eq!(GameInput::Zero.ascii_code(), b'0');
    assert_eq!(GameInput::Nine.ascii_code(), b'9');
    assert_eq!(GameInput::Submit.ascii_code(), b's');
    assert_eq!(GameInput::Backspace.ascii_code(), b'b');
}
