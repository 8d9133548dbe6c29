use clispeak::history::{Entry, History};
use clispeak::node::Target;
use clispeak::proto::{Member, Priority, Response, Status};
use clispeak::requests::{
    default_space_in, device_name_for, device_rows, history_rows, hold_joined, invite_ticket, leave_in,
    leave_plan, leave_space_in, new_space_in, preview_of, removal_of, rename_space_in,
    replay_entry, rotate_in, space_named, space_rows, targets_for, targets_reply, voice_label,
};
use clispeak::spaces::{Roster, Spaces};
use clispeak::ticket::Ticket;

fn member(key: &str, name: &str) -> Member {
    Member {
        endpoint_id: key.into(),
        name: name.into(),
        invited_by: key.into(),
        signature: Vec::new(),
        joined_at: 1,
        renamed_at: 1,
    }
}

fn roster(founder: &str, members: &[(&str, &str)]) -> Roster {
    Roster {
        founder: founder.into(),
        founded_at: 1,
        members: members.iter().map(|(k, n)| member(k, n)).collect(),
        revoked: Vec::new(),
    }
}

/// This device is `Laptop`; `main` holds it and `Phone`, `work` holds it and
/// `Desk`. `main` is the default.
fn two_spaces() -> Spaces {
    let mut spaces = Spaces::default();
    spaces.insert(roster("lap", &[("lap", "Laptop"), ("pho", "Phone")]), "main");
    spaces.insert(roster("dsk", &[("dsk", "Desk"), ("lap", "Laptop")]), "work");
    spaces
}

#[test]
fn a_space_is_found_by_the_name_this_device_gives_it() {
    let spaces = two_spaces();
    assert_eq!(space_named(&spaces, None).unwrap(), "lap:1");
    assert_eq!(space_named(&spaces, Some("work")).unwrap(), "dsk:1");
    assert_eq!(
        space_named(&spaces, Some("nope")).unwrap_err(),
        "no space called 'nope'. Known: main, work"
    );
}

#[test]
fn choosing_the_default_by_name() {
    let mut spaces = two_spaces();
    default_space_in(&mut spaces, "work").unwrap();
    assert_eq!(spaces.default_id(), "dsk:1");
    assert_eq!(
        default_space_in(&mut spaces, "nope").unwrap_err(),
        "no space called 'nope'"
    );
    assert_eq!(spaces.default_id(), "dsk:1");
}

#[test]
fn a_renamed_space_answers_to_its_new_name() {
    let mut spaces = two_spaces();
    rename_space_in(&mut spaces, "work", "  office ").unwrap();
    assert_eq!(space_named(&spaces, Some("office")).unwrap(), "dsk:1");
    assert!(space_named(&spaces, Some("work")).is_err());
    assert_eq!(
        rename_space_in(&mut spaces, "office", "main").unwrap_err(),
        "there is already a space called 'main'"
    );
    assert_eq!(
        rename_space_in(&mut spaces, "nope", "x").unwrap_err(),
        "no space called 'nope'"
    );
    assert_eq!(
        rename_space_in(&mut spaces, "office", "a/b").unwrap_err(),
        "a space name cannot contain '/' or ','"
    );
    assert_eq!(spaces.label("dsk:1"), "office");
}

#[test]
fn leaving_by_name_keeps_the_other_spaces_but_never_the_last() {
    let mut spaces = two_spaces();
    assert_eq!(leave_space_in(&mut spaces, "work").unwrap(), "dsk:1");
    assert_eq!(spaces.ids(), vec!["lap:1".to_string()]);
    assert_eq!(
        leave_space_in(&mut spaces, "main").unwrap_err(),
        "this is the only space; use `leave` instead"
    );
    assert_eq!(
        leave_space_in(&mut spaces, "nope").unwrap_err(),
        "no space called 'nope'"
    );

    let mut spaces = two_spaces();
    assert_eq!(leave_space_in(&mut spaces, "main").unwrap(), "lap:1");
    assert_eq!(spaces.default_id(), "dsk:1", "the default moves to what is left");
}

#[test]
fn a_new_space_is_added_and_becomes_the_default() {
    let mut spaces = two_spaces();
    let id = new_space_in(&mut spaces, roster("new", &[("lap", "Laptop")]), " home ").unwrap();
    assert_eq!(id, "new:1");
    assert_eq!(spaces.default_id(), "new:1");
    assert_eq!(spaces.label("new:1"), "home");
    assert_eq!(spaces.ids().len(), 3, "the spaces already held are untouched");
    assert_eq!(spaces.label("dsk:1"), "work");

    assert_eq!(
        new_space_in(&mut spaces, roster("two", &[("lap", "Laptop")]), "main").unwrap_err(),
        "there is already a space called 'main'"
    );
    assert_eq!(spaces.ids().len(), 3, "a refused name changes nothing");
    assert_eq!(
        new_space_in(&mut spaces, roster("three", &[("lap", "Laptop")]), "a,b").unwrap_err(),
        "a space name cannot contain '/' or ','"
    );
}

#[test]
fn the_spaces_are_listed_with_what_each_holds() {
    let spaces = two_spaces();
    let rows = space_rows(&spaces, "lap");
    assert_eq!(rows.len(), 2);
    assert_eq!(rows[0].label, "work");
    assert_eq!(rows[0].devices, 2);
    assert!(!rows[0].is_default && !rows[0].founded_here);
    assert_eq!(rows[1].label, "main");
    assert!(rows[1].is_default && rows[1].founded_here);
}

#[test]
fn devices_are_listed_default_space_first() {
    let spaces = two_spaces();
    let seen = vec![("pho".to_string(), 100), ("dsk".to_string(), 200)];
    let rows = device_rows(&spaces, "lap", &seen, 130);
    let shown: Vec<(&str, bool, Option<u64>, Option<&str>)> = rows
        .iter()
        .map(|d| {
            (
                d.name.as_str(),
                d.is_self,
                d.last_seen_secs,
                d.space.as_deref(),
            )
        })
        .collect();
    assert_eq!(
        shown,
        vec![
            ("Laptop", true, Some(0), Some("main")),
            ("Phone", false, Some(30), Some("main")),
            ("Desk", false, Some(0), Some("work")),
            ("Laptop", true, Some(0), Some("work")),
        ]
    );

    let mut one = Spaces::default();
    one.insert(roster("lap", &[("lap", "Laptop"), ("pho", "Phone")]), "main");
    let rows = device_rows(&one, "lap", &Vec::new(), 130);
    assert_eq!(rows.len(), 2);
    assert!(rows.iter().all(|d| d.space.is_none()), "one space needs no column");
    assert_eq!(rows[1].last_seen_secs, None, "never heard from");
}

fn entry(id: &str, status: Status) -> Entry {
    Entry {
        msg_id: id.into(),
        text: format!("text of {id}"),
        from: "desk".into(),
        at: 7,
        status,
        priority: Priority::High,
        space: None,
    }
}

#[test]
fn the_history_is_listed_newest_first_and_marked_unheard() {
    let history = History::from_entries(vec![
        entry("a", Status::Spoken),
        entry("b", Status::Muted),
        entry("c", Status::Spoken),
    ]);
    let rows = history_rows(&history, None);
    let ids: Vec<&str> = rows.iter().map(|r| r.msg_id.as_str()).collect();
    assert_eq!(ids, vec!["c", "b", "a"]);
    assert!(!rows[0].unheard && rows[1].unheard);
    assert_eq!(rows[1].text, "text of b");
    assert_eq!(rows[1].priority, Priority::High);

    let rows = history_rows(&history, Some(1));
    assert_eq!(rows.len(), 1);
    assert_eq!(rows[0].msg_id, "c");

    assert_eq!(replay_entry(&history, "b").unwrap().text, "text of b");
    assert_eq!(
        replay_entry(&history, "zz").unwrap_err(),
        "no message zz in the history"
    );
}

#[test]
fn a_listing_asked_for_nothing_shows_fifty() {
    let history = History::from_entries((0..60).map(|i| entry(&i.to_string(), Status::Spoken)).collect());
    assert_eq!(history_rows(&history, None).len(), 50);
    assert_eq!(history_rows(&history, Some(0)).len(), 0);
}

#[test]
fn a_preview_reads_the_ticket_without_spending_it() {
    let t = Ticket {
        endpoint_id: "abc".into(),
        token: "tok".into(),
        expires_at: 1_000,
        space: Some("lap:1".into()),
        label: Some("main".into()),
    };
    match preview_of(Ok(t.clone()), 940) {
        Response::Preview {
            label,
            expires_in,
            endpoint_id,
        } => {
            assert_eq!(label.as_deref(), Some("main"));
            assert_eq!(expires_in, 60);
            assert_eq!(endpoint_id, "abc");
        }
        other => panic!("not a preview: {other:?}"),
    }
    match preview_of(Ok(t), 2_000) {
        Response::Preview { expires_in, .. } => assert_eq!(expires_in, 0),
        other => panic!("not a preview: {other:?}"),
    }
    match preview_of(Err("that is not an invite".into()), 0) {
        Response::Error { message, kind } => {
            assert_eq!(message, "that is not an invite");
            assert!(kind.is_none());
        }
        other => panic!("not an error: {other:?}"),
    }
}

#[test]
fn a_resolved_selector_lists_names_and_a_miss_is_marked() {
    let found = Ok(vec![
        Target::Here {
            shadowed: Vec::new(),
        },
        Target::Peer {
            name: "Desk".into(),
            id: "dsk".into(),
            space: "dsk:1".into(),
        },
    ]);
    match targets_reply(found, "Laptop") {
        Response::Targets { devices } => assert_eq!(devices, vec!["Laptop", "Desk"]),
        other => panic!("not targets: {other:?}"),
    }
    match targets_reply(Err("no device called 'x'".into()), "Laptop") {
        Response::Error { message, kind } => {
            assert_eq!(message, "no device called 'x'");
            assert_eq!(kind.as_deref(), Some("no-target"));
        }
        other => panic!("not an error: {other:?}"),
    }
}

#[test]
fn the_voice_in_use_is_named_and_never_guessed() {
    let voices = vec![
        ("a".to_string(), "Alice".to_string()),
        ("b".to_string(), "Bob".to_string()),
    ];
    assert_eq!(voice_label(&voices, Some("b".into()), true), "Bob");
    assert_eq!(voice_label(&voices, Some("z".into()), true), "default voice");
    assert_eq!(voice_label(&voices, None, false), "default voice");
    assert_eq!(voice_label(&Vec::new(), None, false), "unavailable");
    assert_eq!(voice_label(&Vec::new(), Some("a".into()), true), "starting…");
}

#[test]
fn a_rename_is_trimmed_and_held_to_the_selector_rules() {
    assert_eq!(device_name_for("  Desk  ").unwrap(), "Desk");
    assert_eq!(device_name_for("   ").unwrap_err(), "a device name cannot be empty");
    assert_eq!(
        device_name_for("a,b").unwrap_err(),
        "a device name cannot contain '/' or ','"
    );
    assert_eq!(
        device_name_for(" here ").unwrap_err(),
        "'here' already means something to --to; pick another name"
    );
}

#[test]
fn a_removal_names_one_other_device() {
    let spaces = two_spaces();
    assert_eq!(removal_of(&spaces, "dsk:1", "Desk", "lap").unwrap(), "dsk");
    assert_eq!(removal_of(&spaces, "dsk:1", "dsk", "lap").unwrap(), "dsk");
    assert_eq!(
        removal_of(&spaces, "dsk:1", "Laptop", "lap").unwrap_err(),
        "that is this device — use `clispeak leave` instead"
    );
    assert_eq!(
        removal_of(&spaces, "dsk:1", "nobody", "lap").unwrap_err(),
        "no device named 'nobody' in this space"
    );
    assert_eq!(
        removal_of(&spaces, "gone:1", "Desk", "lap").unwrap_err(),
        "no device named 'Desk' in this space"
    );
}

#[test]
fn leaving_tells_every_other_member_and_refounds_only_the_last_space() {
    let spaces = two_spaces();
    let (label, peers) = leave_plan(&spaces, "dsk:1", "lap").unwrap();
    assert_eq!(label, "work");
    assert_eq!(peers, vec!["dsk".to_string()]);
    assert_eq!(
        leave_plan(&spaces, "gone:1", "lap").unwrap_err(),
        "that space is no longer held"
    );

    let mut spaces = two_spaces();
    assert_eq!(leave_in(&mut spaces, "dsk:1", roster("lap", &[("lap", "Laptop")])), Ok(false));
    assert_eq!(spaces.ids(), vec!["lap:1".to_string()]);

    let fresh = Roster {
        founder: "lap".into(),
        founded_at: 9,
        members: vec![member("lap", "Laptop")],
        revoked: Vec::new(),
    };
    assert_eq!(leave_in(&mut spaces, "lap:1", fresh), Ok(true));
    assert_eq!(spaces.ids(), vec!["lap:9".to_string()]);
    assert_eq!(spaces.default_id(), "lap:9");
    assert_eq!(spaces.label("lap:9"), "main", "the name stays with the refounded space");
}

#[test]
fn an_invite_names_its_space_by_id_and_by_name() {
    let spaces = two_spaces();
    let t = invite_ticket(&spaces, Some("work"), "lap", 1_000).unwrap();
    assert_eq!(t.endpoint_id, "lap");
    assert_eq!(t.space.as_deref(), Some("dsk:1"));
    assert_eq!(t.label.as_deref(), Some("work"));
    assert_eq!(t.expires_at, 1_300);
    let d = invite_ticket(&spaces, None, "lap", 1_000).unwrap();
    assert_eq!(d.space.as_deref(), Some("lap:1"));
    assert_ne!(t.token, d.token, "every invite has its own token");
    assert_eq!(
        invite_ticket(&spaces, Some("nope"), "lap", 0).unwrap_err(),
        "no space called 'nope'. Known: main, work"
    );
}

#[test]
fn a_join_displaces_the_empty_space_a_device_founded_for_itself() {
    let mut spaces = Spaces::default();
    spaces.insert(roster("lap", &[("lap", "Laptop")]), "main");
    let said = hold_joined(&mut spaces, roster("dsk", &[("dsk", "Desk"), ("lap", "Laptop")]), "lap", "work");
    assert_eq!(said, "work");
    assert_eq!(spaces.ids(), vec!["dsk:1".to_string()]);
    assert_eq!(spaces.default_id(), "dsk:1");
}

#[test]
fn a_join_beside_a_shared_space_adds_rather_than_replaces() {
    let mut spaces = two_spaces();
    let said = hold_joined(&mut spaces, roster("new", &[("new", "Tablet"), ("lap", "Laptop")]), "lap", " home ");
    assert_eq!(said, "home");
    assert_eq!(spaces.ids().len(), 3);
    assert_eq!(spaces.label("lap:1"), "main");
    assert_eq!(spaces.label("dsk:1"), "work");
    assert_eq!(spaces.default_id(), "lap:1", "the default stays where it was");
}

#[test]
fn rotating_replaces_the_space_asked_for_and_names_who_was_in_it() {
    let mut spaces = two_spaces();
    let fresh = Roster {
        founder: "lap".into(),
        founded_at: 5,
        members: vec![member("lap", "Laptop")],
        revoked: Vec::new(),
    };
    let (label, devices) = rotate_in(&mut spaces, "dsk:1", "lap", fresh).unwrap();
    assert_eq!(label, "work");
    assert_eq!(devices, vec!["Desk".to_string()]);
    assert_eq!(spaces.ids(), vec!["lap:1".to_string(), "lap:5".to_string()]);
    assert_eq!(spaces.label("lap:5"), "work", "the name stays with the space");
    assert_eq!(spaces.default_id(), "lap:1", "the default was not the one rotated");
    assert_eq!(
        rotate_in(&mut spaces, "dsk:1", "lap", roster("x", &[])).unwrap_err(),
        "that space is no longer held"
    );
}

#[test]
fn resolving_with_no_selector_means_this_device() {
    let spaces = two_spaces();
    match targets_for(&spaces, "lap", "Laptop", None) {
        Response::Targets { devices } => assert_eq!(devices, vec!["Laptop".to_string()]),
        other => panic!("expected targets, got {other:?}"),
    }
    match targets_for(&spaces, "lap", "Laptop", Some("nobody".into())) {
        Response::Error { kind, .. } => assert_eq!(kind.as_deref(), Some("no-target")),
        other => panic!("expected a refusal, got {other:?}"),
    }
}
