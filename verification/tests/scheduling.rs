use recordplayer::schedule::{BlockAction, DeckSchedule};

#[test]
fn nothing_pending_renders() {
    let mut s = DeckSchedule::new();
    for d in 0..4 {
        assert_eq!(s.take_action(d, true, 0, 256), BlockAction::Render);
    }
}

#[test]
fn quantized_start_fires_once_in_its_block() {
    let mut s = DeckSchedule::new();
    s.set_start(1, Some(600));
    assert_eq!(s.take_action(1, true, 0, 256), BlockAction::Render);
    assert_eq!(s.take_action(1, true, 256, 256), BlockAction::Render);
    assert_eq!(s.take_action(1, true, 512, 256), BlockAction::StartAt(88));
    assert_eq!(s.take_action(1, true, 768, 256), BlockAction::Render);
}

#[test]
fn start_waits_while_the_clock_is_stopped() {
    let mut s = DeckSchedule::new();
    s.set_start(0, Some(100));
    assert_eq!(s.take_action(0, false, 0, 256), BlockAction::Render);
    // Overdue once the clock runs: starts at the top of the block.
    assert_eq!(s.take_action(0, true, 512, 256), BlockAction::StartAt(0));
}

#[test]
fn cue_jump_fires_after_pending_start() {
    let mut s = DeckSchedule::new();
    s.set_start(2, Some(10));
    s.set_cue(2, Some((20, -960)));
    assert_eq!(s.take_action(2, true, 0, 64), BlockAction::StartAt(10));
    assert_eq!(s.take_action(2, true, 64, 64), BlockAction::CueAt(0, -960));
    assert_eq!(s.take_action(2, true, 128, 64), BlockAction::Render);
}

#[test]
fn cancel_drops_both() {
    let mut s = DeckSchedule::new();
    s.set_start(3, Some(10));
    s.set_cue(3, Some((10, 5)));
    s.cancel(3);
    assert_eq!(s.take_action(3, true, 0, 64), BlockAction::Render);
}
