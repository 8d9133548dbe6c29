use clispeak::child::{finish_tail, keep_read, outcome, STDERR_TAIL};

#[test]
fn the_tail_kept_is_the_last_thing_said_whatever_the_pieces() {
    let said: Vec<u8> = (0..5000u32).map(|i| (i % 251) as u8).collect();
    for piece in [1usize, 7, 512, 1024, 3000] {
        let mut kept = Vec::new();
        for chunk in said.chunks(piece) {
            keep_read(&mut kept, chunk);
            assert!(kept.len() <= 2 * STDERR_TAIL + piece);
        }
        let tail = finish_tail(&kept);
        assert_eq!(tail, said[said.len() - STDERR_TAIL..].to_vec(), "pieces of {piece}");
    }
}

#[test]
fn a_short_complaint_is_kept_whole() {
    let mut kept = Vec::new();
    keep_read(&mut kept, b"no such ");
    keep_read(&mut kept, b"device");
    assert_eq!(finish_tail(&kept), b"no such device".to_vec());
}

#[test]
fn a_requested_stop_or_a_clean_exit_is_not_a_failure() {
    assert!(outcome("piper", true, false, Some(1), None).is_ok());
    assert!(outcome("piper", false, true, Some(0), None).is_ok());
}

#[test]
fn a_failure_names_the_command_the_ending_and_what_it_said() {
    let f = outcome("espeak-ng", false, false, Some(1), Some("no audio".into())).unwrap_err();
    assert_eq!(f.command, "espeak-ng");
    assert_eq!(f.code, "exit code 1");
    assert_eq!(f.detail.as_deref(), Some("no audio"));

    let f = outcome("afplay", false, false, None, Some(String::new())).unwrap_err();
    assert_eq!(f.code, "a signal");
    assert!(f.detail.is_none(), "saying nothing is not a detail");

    let f = outcome("x", false, false, Some(-2), None).unwrap_err();
    assert_eq!(f.code, "exit code -2");
    let f = outcome("x", false, false, Some(i32::MIN), None).unwrap_err();
    assert_eq!(f.code, format!("exit code {}", i32::MIN));
}
