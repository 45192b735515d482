use ir_input::debounce::DebounceGate;
use ir_input::game_input::GameInput;

#[test]
fn first_candidate_is_always_accepted() {
    let mut gate = DebounceGate::new(300);
    assert!(gate.accept(0, GameInput::One));
    let mut gate = DebounceGate::new(300);
    assert!(gate.accept(987_654, GameInput::Submit));
}

#[test]
fn inside_the_window_is_rejected_at_the_window_is_accepted() {
    let mut gate = DebounceGate::new(300);
    assert!(gate.accept(1000, GameInput::One));
    assert!(!gate.accept(1001, GameInput::One));
    assert!(!gate.accept(1299, GameInput::One));
    let mut gate = DebounceGate::new(300);
    assert!(gate.accept(1000, GameInput::One));
    assert!(gate.accept(1300, GameInput::One));
}

#[test]
fn the_gate_does_not_distinguish_symbols() {
    let mut gate = DebounceGate::new(300);
    assert!(gate.accept(1000, GameInput::One));
    assert!(!gate.accept(1100, GameInput::Two));
    assert!(!gate.accept(1200, GameInput::Backspace));
}

#[test]
fn rejected_candidates_do_not_extend_the_window() {
    let mut gate = DebounceGate::new(300);
    assert!(gate.accept(1000, GameInput::One));
    // A rejected candidate must not push the next acceptance further out.
    assert!(!gate.accept(1250, GameInput::One));
    assert!(gate.accept(1300, GameInput::One));
}

#[test]
fn acceptance_restarts_the_window() {
    let mut gate = DebounceGate::new(300);
    assert!(gate.accept(1000, GameInput::One));
    assert!(gate.accept(1300, GameInput::One));
    // The window now runs from 1300, not from 1000.
    assert!(!gate.accept(1599, GameInput::One));
    assert!(gate.accept(1600, GameInput::One));
}
