use clispeak::proto::Member;
use clispeak::spaces::{Roster, Spaces};

fn key(seed: u8) -> String {
    format!("{:02x}{}", seed, "k".repeat(8))
}

fn member(seed: u8, name: &str, at: u64) -> Member {
    Member {
        endpoint_id: key(seed),
        name: name.to_string(),
        invited_by: key(seed),
        signature: Vec::new(),
        joined_at: at,
        renamed_at: at,
    }
}

/// A space founded by the device with this seed, holding only that device.
fn a_space(seed: u8, name: &str) -> Roster {
    Roster {
        founder: key(seed),
        founded_at: 1_700_000_000,
        members: vec![member(seed, name, 1_700_000_000)],
        revoked: Vec::new(),
    }
}

#[test]
fn the_first_space_added_becomes_the_default() {
    let mut spaces = Spaces::default();
    let id = spaces.insert(a_space(1, "laptop"), "home");
    assert_eq!(spaces.default_id(), id);
    assert_eq!(spaces.label(&id), "home");
}

#[test]
fn two_spaces_founded_by_one_device_are_still_two_spaces() {
    // Rotating produces exactly this: same founder, different space.
    let mut spaces = Spaces::default();
    let first = spaces.insert(a_space(1, "laptop"), "home");
    let mut second = a_space(1, "laptop");
    // A different founding moment is what distinguishes them.
    second.founded_at += 1;
    for m in &mut second.members {
        m.joined_at += 1;
    }
    let second = spaces.insert(second, "work");
    assert_ne!(first, second);
    assert_eq!(spaces.list("").len(), 2);
}

#[test]
fn labels_have_to_be_unique_because_they_qualify_device_names() {
    let mut spaces = Spaces::default();
    let first = spaces.insert(a_space(1, "laptop"), "home");
    let second = spaces.insert(a_space(2, "desk"), "work");

    assert!(spaces.set_label(&second, "home").is_err());
    // Renaming a space to what it is already called is not a clash.
    assert!(spaces.set_label(&first, "home").is_ok());
    // `/` and `,` would break the selector syntax outright.
    assert!(spaces.set_label(&first, "home/again").is_err());
    assert!(spaces.set_label(&first, "a,b").is_err());
    assert!(spaces.set_label(&first, "  ").is_err());
}

#[test]
fn a_space_with_other_devices_in_it_is_never_displaced_by_joining() {
    let mut spaces = Spaces::default();
    spaces.insert(a_space(1, "laptop"), "home");
    let me = key(1);

    // Alone: the empty space a node founds for itself, safe to displace.
    assert!(spaces.current_is_unshared(&me));

    // Once somebody else is in it, it is a real space.
    let mut shared = a_space(1, "laptop");
    shared.members.push(member(9, "phone", 1_700_000_100));
    spaces.replace_current(shared);
    assert!(!spaces.current_is_unshared(&me));

    // And it is not this device's own membership that makes it shared.
    assert!(!spaces.current_is_unshared("somebody-else"));
}

#[test]
fn replacing_a_named_space_leaves_every_other_one_alone() {
    let mut spaces = Spaces::default();
    let home = spaces.insert(a_space(1, "laptop"), "home");
    let work = spaces.insert(a_space(2, "desk"), "work");
    spaces.set_default(&home).expect("default");

    assert!(spaces.replace(&work, a_space(3, "desk")));

    assert!(spaces.get(&home).is_some(), "the default must be untouched");
    assert_eq!(spaces.default_id(), home, "and must still be the default");
    assert!(spaces.get(&work).is_none(), "the named space is replaced");
    assert!(spaces.by_label("work").is_some(), "keeping its label");
    assert_eq!(spaces.by_label("home"), Some(home.clone()));
}

#[test]
fn replacing_the_default_moves_the_default_with_it() {
    let mut spaces = Spaces::default();
    let home = spaces.insert(a_space(1, "laptop"), "home");
    spaces.insert(a_space(2, "desk"), "work");
    spaces.set_default(&home).expect("default");

    spaces.replace(&home, a_space(3, "laptop"));

    assert_ne!(spaces.default_id(), home);
    assert_eq!(spaces.label(spaces.default_id()), "home");
}

#[test]
fn replacing_a_space_that_is_not_held_changes_nothing() {
    let mut spaces = Spaces::default();
    let home = spaces.insert(a_space(1, "laptop"), "home");
    assert!(!spaces.replace("no-such-space", a_space(2, "desk")));
    assert_eq!(spaces.ids(), vec![home]);
}

#[test]
fn the_last_space_cannot_be_dropped() {
    let mut spaces = Spaces::default();
    let only = spaces.insert(a_space(1, "laptop"), "home");
    // A device with no space cannot speak even to itself.
    assert!(spaces.remove(&only).is_err());
}

#[test]
fn dropping_the_default_promotes_another() {
    let mut spaces = Spaces::default();
    let first = spaces.insert(a_space(1, "laptop"), "home");
    let second = spaces.insert(a_space(2, "desk"), "work");
    spaces.set_default(&second).expect("set default");

    spaces.remove(&second).expect("remove");
    assert_eq!(spaces.default_id(), first);
    assert!(spaces.get(&second).is_none());
}

#[test]
fn a_peer_is_found_in_the_space_it_belongs_to() {
    let mut spaces = Spaces::default();
    let home = spaces.insert(a_space(1, "laptop"), "home");
    let work = spaces.insert(a_space(2, "desk"), "work");

    assert_eq!(spaces.space_of(&key(1)), Some(home));
    assert_eq!(spaces.space_of(&key(2)), Some(work));
    assert_eq!(spaces.space_of("someone-else"), None);
}

#[test]
fn replacing_the_current_space_rekeys_it_and_keeps_its_name() {
    // What rotating does: a new space under the old local label.
    let mut spaces = Spaces::default();
    let before = spaces.insert(a_space(1, "laptop"), "home");
    spaces.replace_current(a_space(2, "laptop"));

    assert_ne!(spaces.default_id(), before);
    assert!(spaces.get(&before).is_none());
    assert_eq!(spaces.label(spaces.default_id()), "home");
    assert_eq!(spaces.ids().len(), 1);
}

#[test]
fn a_space_id_is_its_founder_and_founding_second() {
    let roster = a_space(1, "laptop");
    assert_eq!(roster.space_id(), format!("{}:1700000000", key(1)));
}

#[test]
fn spaces_are_listed_in_id_order_whatever_order_they_arrived_in() {
    let mut spaces = Spaces::default();
    spaces.insert(a_space(3, "c"), "third");
    spaces.insert(a_space(1, "a"), "first");
    spaces.insert(a_space(2, "b"), "second");
    let ids = spaces.ids();
    let mut sorted = ids.clone();
    sorted.sort();
    assert_eq!(ids, sorted);
    let rows = spaces.list(&key(3));
    assert_eq!(rows[0].label, "first");
    assert!(rows[2].founded_here && rows[2].is_default);
    assert!(!rows[0].founded_here && !rows[0].is_default);
}

#[test]
fn a_relabel_is_trimmed_and_a_control_character_refused() {
    let mut spaces = Spaces::default();
    let id = spaces.insert(a_space(1, "laptop"), "home");
    assert!(spaces.set_label(&id, "  den  ").is_ok());
    assert_eq!(spaces.label(&id), "den");
    assert_eq!(
        spaces.set_label(&id, "a\u{7}b"),
        Err("a space name cannot contain control characters".to_string())
    );
    assert_eq!(
        spaces.set_label("nope", "x"),
        Err("no space with id nope".to_string())
    );
    assert_eq!(
        spaces.set_default("nope"),
        Err("no space with id nope".to_string())
    );
}

#[test]
fn restoring_keeps_the_last_entry_for_an_id_and_repairs_the_default() {
    let a = a_space(1, "laptop");
    let id = a.space_id();
    let spaces = Spaces::restore(
        vec![
            (id.clone(), a.clone(), Some("old".to_string())),
            (id.clone(), a, Some("new".to_string())),
        ],
        "gone".to_string(),
    );
    assert_eq!(spaces.ids(), vec![id.clone()]);
    assert_eq!(spaces.label(&id), "new");
    assert_eq!(spaces.default_id(), id);
}

#[test]
fn a_roster_changed_in_place_keeps_its_space_and_label() {
    let mut spaces = Spaces::default();
    let id = spaces.insert(a_space(1, "laptop"), "home");
    let other = spaces.insert(a_space(2, "phone"), "work");
    spaces
        .get_mut(&id)
        .expect("held")
        .members
        .push(member(3, "desk", 1_700_000_100));
    assert_eq!(spaces.get(&id).expect("held").members.len(), 2);
    assert_eq!(spaces.label(&id), "home");
    assert_eq!(spaces.get(&other).expect("held").members.len(), 1);
    assert!(spaces.get_mut("nothing:0").is_none());
}

#[test]
fn the_current_roster_is_always_there_to_change() {
    let mut spaces = Spaces::default();
    let id = spaces.insert(a_space(1, "laptop"), "home");
    spaces.current_mut().revoked.push((key(9), 5));
    assert_eq!(spaces.get(&id).expect("held").revoked.len(), 1);

    let mut empty = Spaces::default();
    let r = empty.current_mut();
    assert!(r.members.is_empty() && r.founder.is_empty());
    assert_eq!(empty.ids(), vec![String::new()], "held under the default's id");
    assert_eq!(empty.label(""), "main");
}

#[test]
fn a_lone_roster_becomes_the_main_space_and_an_empty_one_nothing() {
    let spaces = Spaces::from_legacy(a_space(1, "laptop"));
    let id = spaces.default_id().to_string();
    assert_eq!(spaces.ids(), vec![id.clone()]);
    assert_eq!(spaces.label(&id), "main");

    let empty = Roster {
        founder: key(2),
        founded_at: 1,
        members: Vec::new(),
        revoked: Vec::new(),
    };
    let spaces = Spaces::from_legacy(empty);
    assert!(spaces.ids().is_empty());
    assert_eq!(spaces.default_id(), "");
}
