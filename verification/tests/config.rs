use clispeak::config::{abandoned, expand, lock_wait, LockWait};

fn groups() -> Vec<(String, Vec<String>)> {
    vec![
        ("loud".to_string(), vec!["desk".into()]),
        ("phones".to_string(), vec!["pixel".into(), "iphone".into()]),
    ]
}

#[test]
fn a_group_becomes_its_devices() {
    assert_eq!(expand("phones", &groups()), "pixel,iphone");
}

#[test]
fn groups_and_devices_mix_freely() {
    assert_eq!(expand("phones,desk", &groups()), "pixel,iphone,desk");
    assert_eq!(expand("loud,phones", &groups()), "desk,pixel,iphone");
}

#[test]
fn unknown_names_pass_through_for_the_node_to_judge() {
    assert_eq!(expand("laptop", &groups()), "laptop");
    assert_eq!(expand("all", &groups()), "all");
}

#[test]
fn whitespace_and_empty_elements_are_tidied_away() {
    assert_eq!(expand(" phones , desk , ", &groups()), "pixel,iphone,desk");
}

#[test]
fn a_group_naming_a_group_is_not_followed() {
    let nested = vec![
        ("inner".to_string(), vec!["desk".into()]),
        ("outer".to_string(), vec!["inner".into()]),
    ];
    assert_eq!(expand("outer", &nested), "inner");
}

#[test]
fn a_group_member_is_trimmed_and_an_empty_selector_is_empty() {
    let g = vec![("pair".to_string(), vec![" a ".into(), "b ".into()])];
    assert_eq!(expand("pair", &g), "a,b");
    assert_eq!(expand(" , ,", &g), "");
}

#[test]
fn a_lock_is_abandoned_only_past_ten_seconds() {
    assert!(!abandoned(None));
    assert!(!abandoned(Some((3, 0))));
    assert!(!abandoned(Some((10, 0))));
    assert!(abandoned(Some((10, 1))));
    assert!(abandoned(Some((11, 0))));
}

#[test]
fn a_held_lock_is_waited_on_until_patience_runs_out() {
    assert_eq!(lock_wait(Some((1, 0)), false), LockWait::Retry);
    assert_eq!(lock_wait(None, false), LockWait::Retry);
    assert_eq!(lock_wait(Some((1, 0)), true), LockWait::GiveUp);
    assert_eq!(lock_wait(Some((60, 0)), true), LockWait::Reclaim);
    assert_eq!(lock_wait(Some((60, 0)), false), LockWait::Reclaim);
}
