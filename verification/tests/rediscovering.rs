use std::cell::Cell;

use clispeak::rediscovering::{Rediscovering, RETRY_MS};

#[test]
fn the_probe_is_not_run_for_every_message() {
    // A machine with no engine at all must not search the disk once per
    // utterance.
    let runs = Cell::new(0usize);
    let mut engine: Rediscovering<()> = Rediscovering::new("nothing here".to_string(), 1_000);
    for _ in 0..50 {
        let _ = engine.look(1_000, || {
            runs.set(runs.get() + 1);
            None
        });
    }
    assert_eq!(runs.get(), 1, "one probe, not fifty");
}

#[test]
fn the_reason_is_the_one_a_sender_reads() {
    let mut engine: Rediscovering<()> =
        Rediscovering::new("piper is not installed".to_string(), 0);
    assert!(!engine.look(0, || None));
    let why = engine.reason();
    assert!(why.contains("piper is not installed"), "{why}");
}

#[test]
fn an_engine_installed_after_the_node_started_is_found() {
    let mut engine: Rediscovering<&str> = Rediscovering::new("not yet".to_string(), 0);
    assert!(!engine.look(0, || None), "nothing there yet");
    assert!(!engine.look(RETRY_MS - 1, || Some("piper")), "too soon to look again");
    assert!(engine.look(RETRY_MS, || Some("piper")), "found once it exists");
    // Kept once found: no further look is made.
    assert!(engine.look(RETRY_MS + 1, || panic!("looked again")));
    assert_eq!(engine.found(), Some(&"piper"));
}
