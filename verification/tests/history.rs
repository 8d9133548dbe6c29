use clispeak::history::{can_record, Entry, History, SaveSlot, WriterStep, KEEP, MAX_TEXT};
use clispeak::proto::{Priority, Status};

fn entry(id: &str, status: Status) -> Entry {
    Entry {
        msg_id: id.into(),
        text: format!("message {id}"),
        from: "Laptop".into(),
        at: 0,
        status,
        priority: Priority::Normal,
        space: None,
    }
}

#[test]
fn the_oldest_falls_off_once_full() {
    let mut history = History::default();
    for i in 0..KEEP + 10 {
        history.record(entry(&format!("m{i}"), Status::Spoken));
    }
    let recent = history.recent(KEEP + 50);
    assert_eq!(recent.len(), KEEP);
    // Newest first, and the first ten are gone.
    assert_eq!(recent[0].msg_id, format!("m{}", KEEP + 9));
    assert!(history.get("m0").is_none());
    assert!(history.get("m10").is_some());
}

#[test]
fn an_outcome_can_be_filled_in_later() {
    let mut history = History::default();
    history.record(entry("m1", Status::Queued));
    history.set_status("m1", Status::Spoken);
    assert_eq!(history.get("m1").map(|e| e.status), Some(Status::Spoken));
    // An id that is not there is not an error; it may have fallen off.
    history.set_status("gone", Status::Spoken);
}

#[test]
fn a_refused_message_is_kept_and_marked_unheard() {
    let mut history = History::default();
    history.record(entry("m1", Status::Muted));
    history.record(entry("m2", Status::Spoken));
    let unheard: Vec<String> = history
        .recent(10)
        .into_iter()
        .filter(Entry::unheard)
        .map(|e| e.msg_id)
        .collect();
    assert_eq!(unheard, vec!["m1".to_string()]);
    // The whole text survives, because reading it back is the point.
    assert_eq!(
        history.get("m1").map(|e| e.text.clone()),
        Some("message m1".into())
    );
}

#[test]
fn an_enormous_message_is_bounded() {
    let mut history = History::default();
    let mut big = entry("m1", Status::Spoken);
    big.text = "x".repeat(MAX_TEXT * 2);
    history.record(big);
    assert_eq!(history.get("m1").map(|e| e.text.len()), Some(MAX_TEXT));
}

#[test]
fn a_bound_counts_bytes_not_characters() {
    let mut history = History::default();
    let mut big = entry("m1", Status::Spoken);
    // Two bytes each: the cut lands between characters.
    big.text = "é".repeat(MAX_TEXT);
    history.record(big);
    let kept = history.get("m1").map(|e| e.text.clone()).expect("kept");
    assert_eq!(kept.len(), MAX_TEXT);
    assert_eq!(kept.chars().count(), MAX_TEXT / 2);
}

#[test]
fn the_newest_of_two_with_one_id_is_the_one_changed_and_found() {
    let mut history = History::default();
    history.record(entry("m1", Status::Queued));
    let mut again = entry("m1", Status::Queued);
    again.text = "second".into();
    history.record(again);
    history.set_status("m1", Status::Muted);
    let recent = history.recent(2);
    assert_eq!(recent[0].status, Status::Muted);
    assert_eq!(recent[1].status, Status::Queued);
    assert_eq!(history.get("m1").map(|e| e.text.clone()), Some("second".into()));
    history.clear();
    assert!(history.recent(5).is_empty());
}

#[test]
fn a_flush_with_nothing_pending_returns() {
    let slot = SaveSlot::new();
    let want = slot.queued();
    assert!(slot.flushed(want));
    assert!(slot.flushed(slot.queued()));
}

#[test]
fn five_snapshots_in_a_row_cost_one_write_of_the_newest() {
    let mut slot = SaveSlot::new();
    for i in 0..5u8 {
        slot.put(vec![i]);
    }
    let want = slot.queued();
    assert_eq!(want, 5);
    assert!(!slot.flushed(want));
    match slot.next_step() {
        WriterStep::Write(bytes, mark) => {
            assert_eq!(bytes, vec![4]);
            assert_eq!(mark, 5);
            slot.wrote(mark);
        }
        _ => panic!("a pending snapshot must be written"),
    }
    assert!(slot.flushed(want));
    assert!(matches!(slot.next_step(), WriterStep::Wait));
}

#[test]
fn a_stopped_slot_writes_what_was_pending_before_it_stops() {
    let mut slot = SaveSlot::new();
    slot.put(b"only".to_vec());
    slot.stop();
    match slot.next_step() {
        WriterStep::Write(bytes, mark) => {
            assert_eq!(bytes, b"only".to_vec());
            assert_eq!(mark, 1);
        }
        _ => panic!("the pending snapshot comes before stopping"),
    }
    assert!(matches!(slot.next_step(), WriterStep::Stop));
}

#[test]
fn an_older_mark_does_not_undo_a_newer_one() {
    let mut slot = SaveSlot::new();
    slot.put(vec![1]);
    slot.put(vec![2]);
    slot.wrote(2);
    slot.wrote(1);
    assert!(slot.flushed(2));
}

#[test]
fn a_text_is_recordable_unless_the_cut_would_split_a_character() {
    assert!(can_record("Tea is ready."));
    assert!(can_record(&"a".repeat(MAX_TEXT)));
    assert!(can_record(&format!("{}é", "a".repeat(MAX_TEXT))));
    assert!(!can_record(&format!("{}é", "a".repeat(MAX_TEXT - 1))));
}
